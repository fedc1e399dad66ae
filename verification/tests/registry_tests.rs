use elastic_stream::range_manager::StreamMetadata;
use elastic_stream::frame::{HeaderFormat, OperationCode, StreamIdGenerator};
use elastic_stream::session::{
    client_operation, operation_code, prepare_request, ClientOperation, InflightRequests,
    RequestKind, ResponseHandler, ResponseRoute,
};
use elastic_stream::stream_manager::{
    create_stream_response, new_stream_metadata, plan, ReplicationError, StreamPlan,
    StreamRegistry, StreamRequestKind,
};
use elastic_stream::worker::{accept_loop_step, AcceptAction, AcceptEvent};

#[test]
fn stream_plans() {
    assert_eq!(StreamPlan::OnOpenStream, plan(StreamRequestKind::Append));
    assert_eq!(StreamPlan::OnOpenStream, plan(StreamRequestKind::Read));
    assert_eq!(StreamPlan::OnOpenStream, plan(StreamRequestKind::StartOffset));
    assert_eq!(StreamPlan::OnOpenStream, plan(StreamRequestKind::NextOffset));
    assert_eq!(StreamPlan::DetachThenRun, plan(StreamRequestKind::CloseStream));
    assert_eq!(StreamPlan::DetachThenRun, plan(StreamRequestKind::Trim));
    assert_eq!(StreamPlan::ThroughClient, plan(StreamRequestKind::CreateStream));
    assert_eq!(StreamPlan::OpenThenRegister, plan(StreamRequestKind::OpenStream));
}

#[test]
fn registry_open_lookup_close() {
    let mut r: StreamRegistry<&str> = StreamRegistry::new();
    assert_eq!(Err(ReplicationError::StreamNotExist), r.stream_for(7));
    r.register(7, "seven");
    r.register(8, "eight");
    assert_eq!(Ok(&"seven"), r.stream_for(7));
    assert_eq!(Ok("seven"), r.detach(7));
    assert_eq!(Err(ReplicationError::StreamNotExist), r.stream_for(7));
    assert_eq!(Err(ReplicationError::StreamNotExist), r.detach(7));
    assert_eq!(Ok(&"eight"), r.stream_for(8));
    r.register(8, "eight again");
    assert_eq!(Ok(&"eight again"), r.stream_for(8));
}

#[test]
fn stream_creation_answers() {
    let m = new_stream_metadata(3, 2, 60);
    assert_eq!(
        StreamMetadata { stream_id: None, replica: 3, ack_count: 2, retention_period_secs: 60 },
        m
    );
    let assigned = StreamMetadata { stream_id: Some(42), ..m };
    assert_eq!(Ok(42), create_stream_response::<String>(Ok(assigned)));
    assert_eq!(
        Err(ReplicationError::Internal),
        create_stream_response::<String>(Err("unavailable".to_string()))
    );
}

#[test]
fn inflight_requests_are_answered_once() {
    let mut t: InflightRequests<&str> = InflightRequests::new();
    t.register(1, "append");
    t.register(2, "fetch");
    assert_eq!(
        (ResponseRoute::Ignore, None),
        t.handle_response(ClientOperation::Heartbeat, false, 1)
    );
    assert_eq!(
        (ResponseRoute::Answer(ResponseHandler::Append), Some("append")),
        t.handle_response(ClientOperation::Append, false, 1)
    );
    assert_eq!((ResponseRoute::Missing, None), t.handle_response(ClientOperation::Append, false, 1));
    assert_eq!(
        (ResponseRoute::Answer(ResponseHandler::SystemError), Some("fetch")),
        t.handle_response(ClientOperation::Fetch, true, 2)
    );
    assert!(t.requests.is_empty());
}

#[test]
fn inflight_requests_dropped_on_failure_or_cancel() {
    let mut t: InflightRequests<u8> = InflightRequests::new();
    t.register(1, 10);
    t.register(2, 20);
    t.register(3, 30);
    assert_eq!(Some(20), t.write_failed(2));
    assert_eq!(None, t.write_failed(2));
    t.remove_closed(&vec![3, 9]);
    assert_eq!(1, t.requests.len());
    assert_eq!(
        (ResponseRoute::Missing, None),
        t.handle_response(ClientOperation::Ping, false, 5)
    );
    assert_eq!(1, t.requests.len());
    assert_eq!(Some(&10), t.requests.get(&1));
    assert_eq!(
        (ResponseRoute::Discard, Some(10)),
        t.handle_response(ClientOperation::SyncRange, false, 1)
    );
}

#[test]
fn accept_loop_decisions() {
    assert_eq!(AcceptAction::StartSession, accept_loop_step(AcceptEvent::Accepted));
    assert_eq!(AcceptAction::StopAccepting, accept_loop_step(AcceptEvent::Shutdown));
    assert_eq!(AcceptAction::StopAccepting, accept_loop_step(AcceptEvent::AcceptFailed));
}

#[test]
fn prepared_request_is_matched_by_its_stream_id() {
    let mut ids = StreamIdGenerator::new();
    let mut t: InflightRequests<&str> = InflightRequests::new();
    let f = prepare_request(&mut ids, &mut t, RequestKind::Append, b"hdr".to_vec(), Some(vec![b"body".to_vec()]), "append");
    assert_eq!(1, f.stream_id);
    assert_eq!(operation_code(ClientOperation::Append), f.operation_code);
    assert_eq!(OperationCode(6), f.operation_code);
    assert_eq!(0, f.flag);
    assert_eq!(HeaderFormat::FlatBuffer, f.header_format);
    assert_eq!(Some(b"hdr".to_vec()), f.header);
    assert_eq!(Some(vec![b"body".to_vec()]), f.payload);
    let g = prepare_request(&mut ids, &mut t, RequestKind::Heartbeat, vec![], None, "beat");
    assert_eq!(2, g.stream_id);
    assert_eq!(OperationCode::HEARTBEAT(), g.operation_code);
    assert_eq!(Some("beat"), t.write_failed(g.stream_id));
    assert_eq!(
        (ResponseRoute::Answer(ResponseHandler::Append), Some("append")),
        t.handle_response(ClientOperation::Append, false, f.stream_id)
    );
    assert!(t.requests.is_empty());
}

#[test]
fn operation_codes_round_trip() {
    for op in [ClientOperation::Unknown, ClientOperation::Ping, ClientOperation::Fetch, ClientOperation::DescribePlacementDriver] {
        assert_eq!(Some(op), client_operation(operation_code(op)));
    }
    assert_eq!(None, client_operation(OperationCode(18)));
    assert_eq!(None, client_operation(OperationCode(-1)));
}
