use elastic_stream::buffers::concat_buffers;
use elastic_stream::index_codec::{
    build_index_key, decode_range_record, decode_wal_checkpoint, encode_wal_checkpoint,
    has_prefix, plan_left_key, range_key_bounds, range_record_key, range_record_value,
    sealed_range_record_value, should_flush, stream_range_prefix, take_within_budget,
    LeftKeyPlan,
};
use elastic_stream::object::{gen_footer, gen_object_key, ObjT, ObjectMetadata, FOOTER_MAGIC};
use elastic_stream::range::RangeMetadata;
use elastic_stream::range_manager::{DefaultRangeManager, NewCommit, RangeProgress, ServiceError};
use elastic_stream::session::{
    idle_since_after_heartbeat, plan_heartbeat, read_loop_step, request_operation,
    route_response, ClientOperation, ClientRole, HeartbeatRequest, LoopAction, ReadEvent, RequestKind,
    ResponseHandler, ResponseRoute,
};
use elastic_stream::store_error::StoreError;
use elastic_stream::tracing::should_report;
use elastic_stream::worker::{drain_step, DrainAction, DrainEvent};

#[test]
fn manager_test_new() -> Result<(), Box<dyn std::error::Error>> {
    Ok(())
}

#[test]
fn object_key_layout() {
    // (1 * 31 + 2) * 31 + 3 = 1026 = 0x402, written backwards.
    assert_eq!("204_c1_1_2_3_3", gen_object_key("c1", 1, 2, 3, 3));
    assert_eq!(
        "0_cluster_0_0_0_0",
        gen_object_key("cluster", 0, 0, 0, 0)
    );
    let mut m = ObjectMetadata::new(0x1f, 0xa, 1, 0xff);
    m.gen_object_key("x");
    // (31 * 31 + 10) * 31 + 255 = 30356 = 0x7694.
    assert_eq!(Some("4967_x_1f_a_1_ff".to_string()), m.key);
}

#[test]
fn object_key_wraps_around() {
    let key = gen_object_key("c", u64::MAX, 0, 0, 0);
    let n = u64::MAX.wrapping_mul(31).wrapping_mul(31);
    let prefix: String = format!("{:x}", n).chars().rev().collect();
    assert_eq!(format!("{prefix}_c_ffffffffffffffff_0_0_0"), key);
}

#[test]
fn footer_layout() {
    let f = gen_footer(10, 20);
    assert_eq!(48, f.len());
    assert_eq!(&11u32.to_be_bytes(), &f[0..4]);
    assert_eq!(&20u32.to_be_bytes(), &f[4..8]);
    assert!(f[8..40].iter().all(|b| *b == 0));
    assert_eq!(&FOOTER_MAGIC.to_be_bytes(), &f[40..48]);
}

fn sparse(entries: &[(u32, u32)]) -> Vec<u8> {
    let mut v = Vec::new();
    for (d, p) in entries {
        v.extend_from_slice(&d.to_be_bytes());
        v.extend_from_slice(&p.to_be_bytes());
    }
    v
}

fn object() -> ObjectMetadata {
    let mut m = ObjectMetadata::new(1, 0, 0, 100);
    m.end_offset_delta = 40;
    m.data_len = 400;
    // Records [100, 110) at 0, [110, 120) at 100, [120, 130) at 200, [130, 140) at 300.
    m.sparse_index = sparse(&[(10, 100), (20, 200), (30, 300), (40, 400)]);
    m
}

#[test]
fn find_bound_outside_object() {
    let m = object();
    assert_eq!(None, m.find_bound(140, None, 100, None));
    assert_eq!(None, m.find_bound(90, Some(100), 100, None));
}

#[test]
fn find_bound_from_object_start() {
    let m = object();
    assert_eq!(Some((0, 200)), m.find_bound(100, None, 150, None));
    assert_eq!(Some((0, 100)), m.find_bound(100, Some(110), 1000, None));
}

#[test]
fn find_bound_from_index_entry() {
    let m = object();
    // The last entry ending at or before 125 is the one ending at 120, position 200; the
    // hint grows by 100 for each later entry.
    assert_eq!(Some((200, 400)), m.find_bound(125, None, 50, None));
    assert_eq!(Some((200, 300)), m.find_bound(125, Some(130), 50, None));
    // A given position is used as is.
    assert_eq!(Some((100, 200)), m.find_bound(125, None, 100, Some(100)));
}

#[test]
fn find_bound_before_first_entry_reads_all() {
    let m = object();
    assert_eq!(Some((0, 400)), m.find_bound(105, None, 1, None));
}

#[test]
fn object_record_conversions() {
    let t = ObjT {
        stream_id: -1,
        range_index: 2,
        epoch: 3,
        start_offset: 4,
        end_offset_delta: 5,
        data_len: 6,
        sparse_index: None,
    };
    let m = ObjectMetadata::from_obj_record(&t);
    assert_eq!(u64::MAX, m.stream_id);
    assert_eq!(2, m.range_index);
    assert!(m.sparse_index.is_empty());
    let back = m.to_obj_record();
    assert_eq!(-1, back.stream_id);
    assert_eq!(Some(vec![]), back.sparse_index);
    let r = m.clone().into_range_record();
    assert_eq!("", r.key);
    let m2 = ObjectMetadata::from_range_record(&r);
    assert_eq!(Some(String::new()), m2.key);
    assert_eq!(0, m2.stream_id);
    assert_eq!(4, m2.start_offset);
}

#[test]
fn index_key_layout() {
    let k = build_index_key(1, 2, 3);
    let mut expected = Vec::new();
    expected.extend_from_slice(&1i64.to_be_bytes());
    expected.extend_from_slice(&2u32.to_be_bytes());
    expected.extend_from_slice(&3u64.to_be_bytes());
    assert_eq!(expected, k);
    let (lower, upper) = range_key_bounds(1, 2);
    assert_eq!(&expected[..12], &lower[..]);
    assert_eq!(3u32.to_be_bytes(), upper[8..12]);
    assert!(build_index_key(1, 2, 3) < build_index_key(1, 2, 4));
}

#[test]
fn wal_checkpoint_codec() {
    assert_eq!(Ok(0), decode_wal_checkpoint(None));
    assert_eq!(Ok(100), decode_wal_checkpoint(Some(&encode_wal_checkpoint(100))));
    assert_eq!(Err(StoreError::DataCorrupted), decode_wal_checkpoint(Some(&[1, 2, 3])));
}

#[test]
fn left_key_plans() {
    assert!(matches!(plan_left_key(1, 0, 5, None), LeftKeyPlan::NotFound));
    assert!(matches!(plan_left_key(1, 0, 15, Some(14)), LeftKeyPlan::NotFound));
    assert!(matches!(plan_left_key(1, 0, 14, Some(14)), LeftKeyPlan::MaxKey));
    match plan_left_key(1, 0, 11, Some(14)) {
        LeftKeyPlan::ScanBelow { lower, upper } => {
            assert_eq!(build_index_key(1, 0, 0), lower);
            assert_eq!(build_index_key(1, 0, 12), upper);
        }
        other => panic!("unexpected {:?}", other),
    }
}

#[test]
fn scan_budget() {
    let lens = [128u32; 10];
    assert_eq!(2, take_within_budget(&lens, 256));
    assert_eq!(0, take_within_budget(&lens, 0));
    // At least one record even if the budget is smaller than it.
    assert_eq!(1, take_within_budget(&lens, 5));
    assert_eq!(10, take_within_budget(&lens, u32::MAX));
    assert!(should_flush(127, 128));
    assert!(!should_flush(126, 128));
}

#[test]
fn range_record_codec() {
    let open = RangeMetadata::new(-3, 7, 0, 100, None);
    let k = range_record_key(-3, 7);
    assert_eq!(13, k.len());
    assert_eq!(b'r', k[0]);
    assert!(has_prefix(&k, &stream_range_prefix(-3)));
    assert!(!has_prefix(&k, &stream_range_prefix(3)));
    let v = range_record_value(&open);
    assert_eq!(8, v.len());
    assert_eq!(open, decode_range_record(&k, &v));
    let sealed = RangeMetadata::new(-3, 7, 0, 100, Some(200));
    let v = sealed_range_record_value(&sealed).unwrap();
    assert_eq!(16, v.len());
    assert_eq!(sealed, decode_range_record(&k, &v));
    assert_eq!(
        Err(StoreError::Internal(String::new())),
        sealed_range_record_value(&open)
    );
}

#[test]
fn range_manager_create_and_commit() {
    let mut m = DefaultRangeManager::new();
    assert!(m.get_range(1, 0).is_none());
    m.create_range(RangeMetadata::new(1, 0, 0, 0, None)).unwrap();
    assert!(m.has_stream(1));
    assert_eq!(None, m.get_range(1, 0).unwrap().committed());
    assert_eq!(
        Err(ServiceError::NotFound("range[1#5]".to_string())),
        m.commit(1, 5, 10, 1, 64)
    );
    assert_eq!(
        Err(ServiceError::NotFound("range[-2#0]".to_string())),
        m.commit(-2, 0, 10, 1, 64)
    );
    assert_eq!(
        Ok(NewCommit { stream_id: 1, range_index: 0, bytes_len: 64 }),
        m.commit(1, 0, 10, 1, 64)
    );
    assert_eq!(Some(10), m.get_range(1, 0).unwrap().committed());
    let progress = m.get_range_progress(&vec![(1, 0), (1, 1), (2, 0)]);
    assert_eq!(
        vec![RangeProgress { stream_id: 1, range_index: 0, confirm_offset: 10 }],
        progress
    );
    m.bootstrap_range(
        RangeMetadata::new(2, 3, 0, 5, None),
        Some(9),
        elastic_stream::range_manager::StreamMetadata {
            stream_id: Some(2),
            replica: 3,
            ack_count: 2,
            retention_period_secs: 60,
        },
    );
    assert_eq!(Some(9), m.get_range(2, 3).unwrap().committed());
    assert_eq!(3, m.streams.get(&2).unwrap().metadata.replica);
}

#[test]
fn session_decisions() {
    assert_eq!(ClientOperation::Append, request_operation(RequestKind::Append));
    assert_eq!(ResponseRoute::Ignore, route_response(ClientOperation::Heartbeat, false, true));
    assert_eq!(ResponseRoute::Missing, route_response(ClientOperation::Append, false, false));
    assert_eq!(
        ResponseRoute::Answer(ResponseHandler::SystemError),
        route_response(ClientOperation::Fetch, true, true)
    );
    assert_eq!(
        ResponseRoute::Answer(ResponseHandler::Fetch),
        route_response(ClientOperation::Fetch, false, true)
    );
    assert_eq!(ResponseRoute::Discard, route_response(ClientOperation::SyncRange, false, true));
    assert_eq!(LoopAction::Continue, read_loop_step(ReadEvent::Incomplete));
    assert_eq!(LoopAction::CloseSession, read_loop_step(ReadEvent::Closed));
    assert_eq!(
        LoopAction::IgnoreRequest,
        read_loop_step(ReadEvent::Frame { is_response: false })
    );
    assert_eq!(LoopAction::Stop, read_loop_step(ReadEvent::Shutdown));
    assert_eq!(LoopAction::CloseSession, read_loop_step(ReadEvent::Failed));
    assert_eq!(ResponseRoute::Missing, route_response(ClientOperation::Ping, false, false));
    assert_eq!(None, plan_heartbeat(5, 10, 3000, "c".to_string(), ClientRole::RangeServer, 9));
    assert_eq!(
        Some(HeartbeatRequest {
            operation: ClientOperation::Heartbeat,
            timeout_ms: 3000,
            client_id: "c".to_string(),
            role: ClientRole::RangeServer,
            range_server: Some(9),
        }),
        plan_heartbeat(10, 10, 3000, "c".to_string(), ClientRole::RangeServer, 9)
    );
    assert_eq!(
        Some(HeartbeatRequest {
            operation: ClientOperation::Heartbeat,
            timeout_ms: 100,
            client_id: "f".to_string(),
            role: ClientRole::Frontend,
            range_server: None,
        }),
        plan_heartbeat(11, 10, 100, "f".to_string(), ClientRole::Frontend, 9)
    );
    assert_eq!(7, idle_since_after_heartbeat(3, 7, true));
    assert_eq!(3, idle_since_after_heartbeat(3, 7, false));
}

#[test]
fn tracing_and_worker_decisions() {
    assert!(should_report(&[5, 30, 10], 30));
    assert!(!should_report(&[5, 29, 10], 30));
    assert_eq!(DrainAction::Sleep, drain_step(DrainEvent::Counted { remaining: 2 }));
    assert_eq!(DrainAction::Done, drain_step(DrainEvent::Counted { remaining: 0 }));
    assert_eq!(
        DrainAction::Recount,
        drain_step(DrainEvent::Slept { elapsed_ms: 10, grace_ms: 100 })
    );
    assert_eq!(
        DrainAction::Done,
        drain_step(DrainEvent::Slept { elapsed_ms: 100, grace_ms: 100 })
    );
}

#[test]
fn buffers_concatenate() {
    assert_eq!(b"abcd".to_vec(), concat_buffers(&vec![b"ab".to_vec(), vec![], b"cd".to_vec()]));
}

#[test]
fn object_keys_differ_per_object() {
    let a = gen_object_key("c_1", 1, 2, 3, 4);
    let b = gen_object_key("c_1", 1, 2, 3, 5);
    let c = gen_object_key("c_1", 0x12, 0, 3, 4);
    let d = gen_object_key("c_1", 1, 0x20, 3, 4);
    assert_ne!(a, b);
    assert_ne!(a, c);
    assert_ne!(a, d);
    assert_ne!(c, d);
}

#[test]
fn find_bound_returns_none_before_reading_index() {
    // One index entry whose end offset would overflow, and a partial entry.
    let mut m = ObjectMetadata::new(1, 0, 0, u64::MAX - 10);
    m.end_offset_delta = 5;
    m.data_len = 100;
    m.sparse_index = vec![0, 0, 0, 20, 0, 0, 0, 50, 1, 2];
    assert_eq!(None, m.find_bound(u64::MAX - 5, None, 10, None));
    assert_eq!(None, m.find_bound(u64::MAX - 8, Some(u64::MAX - 10), 10, None));
}

#[test]
fn find_bound_end_scan_stops_before_bad_entries() {
    let mut m = ObjectMetadata::new(1, 0, 0, 100);
    m.end_offset_delta = 50;
    m.data_len = 400;
    // Entry 0 ends at 110 (position 64); the scan stops there, before entry 1 and the
    // partial entry after it.
    m.sparse_index = vec![0, 0, 0, 10, 0, 0, 0, 64, 0xff, 0xff, 0xff, 0xff, 0, 0, 1, 0, 7];
    assert_eq!(Some((0, 64)), m.find_bound(100, Some(105), 1000, None));
    assert_eq!(Some((0, 64)), m.find_bound(100, None, 10, None));
}

#[test]
fn index_keys_sort_by_offset() {
    let a = build_index_key(3, 1, 255);
    let b = build_index_key(3, 1, 256);
    let c = build_index_key(3, 1, u64::MAX);
    assert!(a < b && b < c);
    assert!(build_index_key(-1, 0, 9) < build_index_key(-1, 0, 10));
}

#[test]
fn object_keys_differ_across_clusters() {
    assert_ne!(gen_object_key("a_1", 2, 3, 4, 5), gen_object_key("a", 0x12, 3, 4, 5));
    assert_ne!(gen_object_key("a_b", 1, 2, 3, 4), gen_object_key("a", 1, 2, 3, 4));
}

#[test]
fn index_scan_budgets() {
    let lens = vec![128u32; 1024];
    assert_eq!(10, take_within_budget(&lens, 10 * 128));
    assert_eq!(0, take_within_budget(&lens, 0));
    assert_eq!(1, take_within_budget(&lens, 5));
    let lens = vec![128u32; 1023];
    assert_eq!(2, take_within_budget(&lens, 128 * 2));
    assert_eq!(10, take_within_budget(&lens, 128 * 10));
}
