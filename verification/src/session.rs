//! Decisions of a client session: which operation a request travels as, what to do with each
//! read from the connection, and where a response goes.
use vstd::prelude::*;
use std::collections::HashMap;
use crate::frame::{Frame, HeaderFormat, OperationCode, StreamIdGenerator};

verus! {

/// Operation codes of client requests and responses.
#[derive(Debug, Clone, Copy, PartialEq, Eq, Structural)]
pub enum ClientOperation {
    Unknown,
    Ping,
    GoAway,
    Heartbeat,
    ListRange,
    AllocateId,
    Append,
    Fetch,
    CreateRange,
    SealRange,
    SyncRange,
    CreateStream,
    DescribeStream,
    DeleteStream,
    UpdateStream,
    TrimStream,
    ReportMetrics,
    DescribePlacementDriver,
}

/// Kinds of request headers a client sends.
#[derive(Debug, Clone, Copy, PartialEq, Eq, Structural)]
pub enum RequestKind {
    Heartbeat,
    CreateStream,
    DescribeStream,
    ListRange,
    AllocateId,
    DescribePlacementDriver,
    CreateRange,
    SealRange,
    Append,
    Fetch,
    ReportMetrics,
}

/// The operation a request of kind `kind` travels as.
pub open spec fn spec_request_operation(kind: RequestKind) -> ClientOperation {
    match kind {
        RequestKind::Heartbeat => ClientOperation::Heartbeat,
        RequestKind::CreateStream => ClientOperation::CreateStream,
        RequestKind::DescribeStream => ClientOperation::DescribeStream,
        RequestKind::ListRange => ClientOperation::ListRange,
        RequestKind::AllocateId => ClientOperation::AllocateId,
        RequestKind::DescribePlacementDriver => ClientOperation::DescribePlacementDriver,
        RequestKind::CreateRange => ClientOperation::CreateRange,
        RequestKind::SealRange => ClientOperation::SealRange,
        RequestKind::Append => ClientOperation::Append,
        RequestKind::Fetch => ClientOperation::Fetch,
        RequestKind::ReportMetrics => ClientOperation::ReportMetrics,
    }
}

/// The operation a request of kind `kind` travels as.
pub fn request_operation(kind: RequestKind) -> (op: ClientOperation)
    ensures
        op == spec_request_operation(kind),
{
    match kind {
        RequestKind::Heartbeat => ClientOperation::Heartbeat,
        RequestKind::CreateStream => ClientOperation::CreateStream,
        RequestKind::DescribeStream => ClientOperation::DescribeStream,
        RequestKind::ListRange => ClientOperation::ListRange,
        RequestKind::AllocateId => ClientOperation::AllocateId,
        RequestKind::DescribePlacementDriver => ClientOperation::DescribePlacementDriver,
        RequestKind::CreateRange => ClientOperation::CreateRange,
        RequestKind::SealRange => ClientOperation::SealRange,
        RequestKind::Append => ClientOperation::Append,
        RequestKind::Fetch => ClientOperation::Fetch,
        RequestKind::ReportMetrics => ClientOperation::ReportMetrics,
    }
}

/// How a response is decoded into the answer of its request.
#[derive(Debug, Clone, Copy, PartialEq, Eq, Structural)]
pub enum ResponseHandler {
    SystemError,
    ListRanges,
    AllocateId,
    Append,
    Fetch,
    CreateRange,
    SealRange,
    CreateStream,
    DescribeStream,
    ReportMetrics,
    DescribePlacementDriver,
}

/// What to do with a response frame.
#[derive(Debug, Clone, Copy, PartialEq, Eq, Structural)]
pub enum ResponseRoute {
    /// Heartbeat responses need no handling.
    Ignore,
    /// No request is waiting for it.
    Missing,
    /// The waiting request is dropped without an answer.
    Discard,
    /// The waiting request is answered after decoding the response with this handler.
    Answer(ResponseHandler),
}

/// Whether a response of operation `op` can be routed: the operations with no response
/// handling defined are ping, go-away and trim-stream, unless the response reports a system
/// error.
pub open spec fn routable(op: ClientOperation, system_error: bool) -> bool {
    system_error || !(op == ClientOperation::Ping || op == ClientOperation::GoAway || op
        == ClientOperation::TrimStream)
}

/// Where a response of operation `op` goes, given whether it reports a system error and
/// whether a request waits for its stream id.
pub open spec fn spec_route_response(op: ClientOperation, system_error: bool, waiting: bool) -> ResponseRoute {
    if op == ClientOperation::Heartbeat {
        ResponseRoute::Ignore
    } else if !waiting {
        ResponseRoute::Missing
    } else if system_error {
        ResponseRoute::Answer(ResponseHandler::SystemError)
    } else {
        match op {
            ClientOperation::ListRange => ResponseRoute::Answer(ResponseHandler::ListRanges),
            ClientOperation::AllocateId => ResponseRoute::Answer(ResponseHandler::AllocateId),
            ClientOperation::Append => ResponseRoute::Answer(ResponseHandler::Append),
            ClientOperation::Fetch => ResponseRoute::Answer(ResponseHandler::Fetch),
            ClientOperation::CreateRange => ResponseRoute::Answer(ResponseHandler::CreateRange),
            ClientOperation::SealRange => ResponseRoute::Answer(ResponseHandler::SealRange),
            ClientOperation::CreateStream => ResponseRoute::Answer(ResponseHandler::CreateStream),
            ClientOperation::DescribeStream => ResponseRoute::Answer(
                ResponseHandler::DescribeStream,
            ),
            ClientOperation::ReportMetrics => ResponseRoute::Answer(ResponseHandler::ReportMetrics),
            ClientOperation::DescribePlacementDriver => ResponseRoute::Answer(
                ResponseHandler::DescribePlacementDriver,
            ),
            _ => ResponseRoute::Discard,
        }
    }
}

/// Where a response goes: heartbeat responses are ignored; a response with no waiting
/// request is reported missing; otherwise the waiting request is answered, through the
/// system-error handler when the response reports one, or dropped when its operation has no
/// answer (unknown, sync-range, delete-stream, update-stream).
pub fn route_response(op: ClientOperation, system_error: bool, waiting: bool) -> (r: ResponseRoute)
    requires
        waiting ==> routable(op, system_error),
    ensures
        r == spec_route_response(op, system_error, waiting),
{
    if op == ClientOperation::Heartbeat {
        return ResponseRoute::Ignore;
    }
    if !waiting {
        return ResponseRoute::Missing;
    }
    if system_error {
        return ResponseRoute::Answer(ResponseHandler::SystemError);
    }
    match op {
        ClientOperation::ListRange => ResponseRoute::Answer(ResponseHandler::ListRanges),
        ClientOperation::AllocateId => ResponseRoute::Answer(ResponseHandler::AllocateId),
        ClientOperation::Append => ResponseRoute::Answer(ResponseHandler::Append),
        ClientOperation::Fetch => ResponseRoute::Answer(ResponseHandler::Fetch),
        ClientOperation::CreateRange => ResponseRoute::Answer(ResponseHandler::CreateRange),
        ClientOperation::SealRange => ResponseRoute::Answer(ResponseHandler::SealRange),
        ClientOperation::CreateStream => ResponseRoute::Answer(ResponseHandler::CreateStream),
        ClientOperation::DescribeStream => ResponseRoute::Answer(ResponseHandler::DescribeStream),
        ClientOperation::ReportMetrics => ResponseRoute::Answer(ResponseHandler::ReportMetrics),
        ClientOperation::DescribePlacementDriver => ResponseRoute::Answer(
            ResponseHandler::DescribePlacementDriver,
        ),
        _ => ResponseRoute::Discard,
    }
}

/// What one read from the connection gave.
#[derive(Debug, Clone, Copy, PartialEq, Eq, Structural)]
pub enum ReadEvent {
    /// More bytes are needed for a frame.
    Incomplete,
    /// Reading failed for good: reset, bad frame, too long, wrong magic, bad checksum.
    Failed,
    /// A frame arrived; whether it is a response.
    Frame { is_response: bool },
    /// The peer closed the connection.
    Closed,
    /// The shutdown signal arrived, or its channel closed or lagged behind.
    Shutdown,
}

/// What the read loop does next.
#[derive(Debug, Clone, Copy, PartialEq, Eq, Structural)]
pub enum LoopAction {
    /// Read again.
    Continue,
    /// Route the response, then read again.
    HandleResponse,
    /// Report an unexpected request frame, then read again.
    IgnoreRequest,
    /// Remove the session and stop.
    CloseSession,
    /// Stop, leaving the sessions as they are.
    Stop,
}

/// The read loop's next action after a read.
pub open spec fn spec_read_loop_step(e: ReadEvent) -> LoopAction {
    match e {
        ReadEvent::Incomplete => LoopAction::Continue,
        ReadEvent::Failed => LoopAction::CloseSession,
        ReadEvent::Frame { is_response } => if is_response {
            LoopAction::HandleResponse
        } else {
            LoopAction::IgnoreRequest
        },
        ReadEvent::Closed => LoopAction::CloseSession,
        ReadEvent::Shutdown => LoopAction::Stop,
    }
}

/// The read loop's next action after a read: wait for more bytes, route a response, skip a
/// request, close the session when reading failed or the peer closed the connection, or stop
/// without touching the sessions on shutdown.
pub fn read_loop_step(e: ReadEvent) -> (a: LoopAction)
    ensures
        a == spec_read_loop_step(e),
{
    match e {
        ReadEvent::Incomplete => LoopAction::Continue,
        ReadEvent::Failed => LoopAction::CloseSession,
        ReadEvent::Frame { is_response } => {
            if is_response {
                LoopAction::HandleResponse
            } else {
                LoopAction::IgnoreRequest
            }
        },
        ReadEvent::Closed => LoopAction::CloseSession,
        ReadEvent::Shutdown => LoopAction::Stop,
    }
}

/// Whether a heartbeat is due: the session has been idle for at least the heartbeat interval.
pub fn heartbeat_due(idle_nanos: u128, interval_nanos: u128) -> (b: bool)
    ensures
        b == (idle_nanos >= interval_nanos),
{
    !(idle_nanos < interval_nanos)
}

/// The requests written on a session and not answered yet, by the stream id of their frame.
pub struct InflightRequests<C> {
    pub requests: HashMap<u32, C>,
}

/// What becomes of the in-flight requests when a response of operation `op` for stream id
/// `stream_id` arrives: a heartbeat response leaves them alone; any other response takes the
/// request waiting under its stream id, if any, out of the table.
pub open spec fn after_response<C>(
    before: Map<u32, C>,
    op: ClientOperation,
    stream_id: u32,
) -> Map<u32, C> {
    if op == ClientOperation::Heartbeat {
        before
    } else {
        before.remove(stream_id)
    }
}

impl<C> InflightRequests<C> {
    /// A table with no request in flight.
    pub fn new() -> (t: Self)
        ensures
            t.requests@ == Map::<u32, C>::empty(),
    {
        InflightRequests { requests: HashMap::new() }
    }

    /// Records a request written under `stream_id`, in place of one under the same id.
    pub fn register(&mut self, stream_id: u32, ctx: C)
        ensures
            final(self).requests@ == old(self).requests@.insert(stream_id, ctx),
    {
        proof {
            broadcast use vstd::std_specs::hash::group_hash_axioms;
        }
        self.requests.insert(stream_id, ctx);
    }

    /// Writing the frame of stream id `stream_id` failed: its request leaves the table and is
    /// handed back to the caller.
    pub fn write_failed(&mut self, stream_id: u32) -> (r: Option<C>)
        ensures
            final(self).requests@ == old(self).requests@.remove(stream_id),
            r == (if old(self).requests@.contains_key(stream_id) {
                Some(old(self).requests@[stream_id])
            } else {
                None
            }),
    {
        proof {
            broadcast use vstd::std_specs::hash::group_hash_axioms;
        }
        self.requests.remove(&stream_id)
    }

    /// Takes a response of operation `op` for stream id `stream_id`: where it goes, and the
    /// request it answers or drops.
    pub fn handle_response(&mut self, op: ClientOperation, system_error: bool, stream_id: u32) -> (r: (
        ResponseRoute,
        Option<C>,
    ))
        requires
            old(self).requests@.contains_key(stream_id) ==> routable(op, system_error),
        ensures
            final(self).requests@ == after_response(old(self).requests@, op, stream_id),
            r.0 == spec_route_response(
                op,
                system_error,
                old(self).requests@.contains_key(stream_id),
            ),
            r.1 == (if op != ClientOperation::Heartbeat && old(self).requests@.contains_key(
                stream_id,
            ) {
                Some(old(self).requests@[stream_id])
            } else {
                None
            }),
    {
        proof {
            broadcast use vstd::std_specs::hash::group_hash_axioms;
        }
        if op == ClientOperation::Heartbeat {
            return (ResponseRoute::Ignore, None);
        }
        let ctx = self.requests.remove(&stream_id);
        let waiting = ctx.is_some();
        (route_response(op, system_error, waiting), ctx)
    }

    /// Drops the requests whose callers stopped waiting, listed by stream id.
    pub fn remove_closed(&mut self, closed: &Vec<u32>)
        ensures
            final(self).requests@ == old(self).requests@.remove_keys(closed@.to_set()),
    {
        proof {
            broadcast use vstd::std_specs::hash::group_hash_axioms;
        }
        let mut i: usize = 0;
        while i < closed.len()
            invariant
                i <= closed@.len(),
                self.requests@ == old(self).requests@.remove_keys(closed@.take(i as int).to_set()),
            decreases closed@.len() - i,
        {
            let id = closed[i];
            self.requests.remove(&id);
            proof {
                let prev = closed@.take(i as int);
                let next = closed@.take(i + 1);
                assert forall|x: u32| #[trigger] next.contains(x) <==> (prev.contains(x) || x == id) by {
                    if next.contains(x) {
                        let j = choose|j: int| 0 <= j < next.len() && next[j] == x;
                        if j < i {
                            assert(prev[j] == x);
                        }
                    }
                    if prev.contains(x) {
                        let j = choose|j: int| 0 <= j < prev.len() && prev[j] == x;
                        assert(next[j] == x);
                    }
                    if x == id {
                        assert(next[i as int] == id);
                    }
                }
                assert(next.to_set() =~= prev.to_set().insert(id));
                assert(self.requests@ =~= old(self).requests@.remove_keys(
                    closed@.take(i + 1).to_set(),
                ));
            }
            i = i + 1;
        }
        assert(closed@.take(i as int) =~= closed@);
    }
}

/// A response answers the request written under its stream id once: afterwards a second
/// response for that stream id finds no request waiting.
pub proof fn lemma_response_answers_once<C>(
    requests: Map<u32, C>,
    op: ClientOperation,
    op2: ClientOperation,
    system_error: bool,
    stream_id: u32,
)
    requires
        op != ClientOperation::Heartbeat,
        op2 != ClientOperation::Heartbeat,
    ensures
        spec_route_response(
            op2,
            system_error,
            after_response(requests, op, stream_id).contains_key(stream_id),
        ) == ResponseRoute::Missing,
{
}

/// A request registered and then answered leaves the table as it was, but for its stream id.
pub proof fn lemma_register_then_answer<C>(
    requests: Map<u32, C>,
    op: ClientOperation,
    stream_id: u32,
    ctx: C,
)
    requires
        op != ClientOperation::Heartbeat,
    ensures
        after_response(requests.insert(stream_id, ctx), op, stream_id) == requests.remove(
            stream_id,
        ),
{
    assert(after_response(requests.insert(stream_id, ctx), op, stream_id) =~= requests.remove(
        stream_id,
    ));
}

/// The role a client plays towards the placement driver.
#[derive(Debug, Clone, Copy, PartialEq, Eq, Structural)]
pub enum ClientRole {
    Unspecified,
    PlacementDriver,
    RangeServer,
    Frontend,
}

/// The heartbeat request a session sends.
#[derive(Debug, PartialEq, Eq)]
pub struct HeartbeatRequest<S> {
    /// The operation of the heartbeat frame.
    pub operation: ClientOperation,
    /// How long the client waits for the answer, in milliseconds.
    pub timeout_ms: u64,
    /// The client's identifier.
    pub client_id: String,
    /// The role the client plays.
    pub role: ClientRole,
    /// The range server the client runs in, named only in the range-server role.
    pub range_server: Option<S>,
}

/// Whether and what heartbeat a session sends, once it has been idle for `idle_nanos`: none
/// before the heartbeat interval has passed; else a heartbeat request with the I/O timeout,
/// the client id and the role, naming the range server exactly in the range-server role.
pub fn plan_heartbeat<S>(
    idle_nanos: u128,
    interval_nanos: u128,
    timeout_ms: u64,
    client_id: String,
    role: ClientRole,
    range_server: S,
) -> (p: Option<HeartbeatRequest<S>>)
    ensures
        idle_nanos < interval_nanos ==> p is None,
        idle_nanos >= interval_nanos ==> (p matches Some(h) && {
            &&& h.operation == ClientOperation::Heartbeat
            &&& h.timeout_ms == timeout_ms
            &&& h.client_id@ == client_id@
            &&& h.role == role
            &&& h.range_server == if role == ClientRole::RangeServer {
                Some(range_server)
            } else {
                None
            }
        }),
{
    if !heartbeat_due(idle_nanos, interval_nanos) {
        return None;
    }
    let range_server = if role == ClientRole::RangeServer {
        Some(range_server)
    } else {
        None
    };
    Some(
        HeartbeatRequest {
            operation: ClientOperation::Heartbeat,
            timeout_ms,
            client_id,
            role,
            range_server,
        },
    )
}

/// When the session was last active, after a heartbeat write at `now`: moved to `now` only
/// when the write succeeded.
pub fn idle_since_after_heartbeat(idle_since: u128, now: u128, written: bool) -> (r: u128)
    ensures
        r == (if written {
            now
        } else {
            idle_since
        }),
{
    if written {
        now
    } else {
        idle_since
    }
}

/// A response that no request waits for, or a heartbeat response, leaves the in-flight
/// requests as they were.
pub proof fn lemma_unwaited_response_leaves_table<C>(
    requests: Map<u32, C>,
    op: ClientOperation,
    stream_id: u32,
)
    requires
        op == ClientOperation::Heartbeat || !requests.contains_key(stream_id),
    ensures
        after_response(requests, op, stream_id) == requests,
{
    assert(after_response(requests, op, stream_id) =~= requests);
}

/// The operation code a frame of operation `op` carries; the operations are numbered in the
/// order they are declared.
pub open spec fn spec_operation_code(op: ClientOperation) -> OperationCode {
    match op {
        ClientOperation::Unknown => OperationCode(0),
        ClientOperation::Ping => OperationCode(1),
        ClientOperation::GoAway => OperationCode(2),
        ClientOperation::Heartbeat => OperationCode(3),
        ClientOperation::ListRange => OperationCode(4),
        ClientOperation::AllocateId => OperationCode(5),
        ClientOperation::Append => OperationCode(6),
        ClientOperation::Fetch => OperationCode(7),
        ClientOperation::CreateRange => OperationCode(8),
        ClientOperation::SealRange => OperationCode(9),
        ClientOperation::SyncRange => OperationCode(10),
        ClientOperation::CreateStream => OperationCode(11),
        ClientOperation::DescribeStream => OperationCode(12),
        ClientOperation::DeleteStream => OperationCode(13),
        ClientOperation::UpdateStream => OperationCode(14),
        ClientOperation::TrimStream => OperationCode(15),
        ClientOperation::ReportMetrics => OperationCode(16),
        ClientOperation::DescribePlacementDriver => OperationCode(17),
    }
}

/// The operation code a frame of operation `op` carries.
pub fn operation_code(op: ClientOperation) -> (c: OperationCode)
    ensures
        c == spec_operation_code(op),
{
    match op {
            ClientOperation::Unknown => OperationCode(0),
            ClientOperation::Ping => OperationCode(1),
            ClientOperation::GoAway => OperationCode(2),
            ClientOperation::Heartbeat => OperationCode(3),
            ClientOperation::ListRange => OperationCode(4),
            ClientOperation::AllocateId => OperationCode(5),
            ClientOperation::Append => OperationCode(6),
            ClientOperation::Fetch => OperationCode(7),
            ClientOperation::CreateRange => OperationCode(8),
            ClientOperation::SealRange => OperationCode(9),
            ClientOperation::SyncRange => OperationCode(10),
            ClientOperation::CreateStream => OperationCode(11),
            ClientOperation::DescribeStream => OperationCode(12),
            ClientOperation::DeleteStream => OperationCode(13),
            ClientOperation::UpdateStream => OperationCode(14),
            ClientOperation::TrimStream => OperationCode(15),
            ClientOperation::ReportMetrics => OperationCode(16),
            ClientOperation::DescribePlacementDriver => OperationCode(17),
    }
}

/// The operation a frame's operation code names, if any.
pub fn client_operation(code: OperationCode) -> (op: Option<ClientOperation>)
    ensures
        match op {
            Some(o) => spec_operation_code(o) == code,
            None => forall|o: ClientOperation| #[trigger] spec_operation_code(o) != code,
        },
{
    match code.0 {
            0 => Some(ClientOperation::Unknown),
            1 => Some(ClientOperation::Ping),
            2 => Some(ClientOperation::GoAway),
            3 => Some(ClientOperation::Heartbeat),
            4 => Some(ClientOperation::ListRange),
            5 => Some(ClientOperation::AllocateId),
            6 => Some(ClientOperation::Append),
            7 => Some(ClientOperation::Fetch),
            8 => Some(ClientOperation::CreateRange),
            9 => Some(ClientOperation::SealRange),
            10 => Some(ClientOperation::SyncRange),
            11 => Some(ClientOperation::CreateStream),
            12 => Some(ClientOperation::DescribeStream),
            13 => Some(ClientOperation::DeleteStream),
            14 => Some(ClientOperation::UpdateStream),
            15 => Some(ClientOperation::TrimStream),
            16 => Some(ClientOperation::ReportMetrics),
            17 => Some(ClientOperation::DescribePlacementDriver),
        _ => None,
    }
}

/// Builds the frame of a request and records the request as in flight under the frame's
/// stream id, before the frame is written: the next stream id of `ids`, the operation of the
/// request's kind, the encoded request as header and the request body as payload.
pub fn prepare_request<C>(
    ids: &mut StreamIdGenerator,
    table: &mut InflightRequests<C>,
    kind: RequestKind,
    header: Vec<u8>,
    body: Option<Vec<Vec<u8>>>,
    ctx: C,
) -> (f: Frame)
    requires
        old(ids).next_id() < u32::MAX,
    ensures
        f.stream_id == old(ids).next_id(),
        final(ids).next_id() == old(ids).next_id() + 1,
        f.operation_code == spec_operation_code(spec_request_operation(kind)),
        f.flag == 0,
        f.header_format == HeaderFormat::FlatBuffer,
        f.header == Some(header),
        f.payload == body,
        final(table).requests@ == old(table).requests@.insert(f.stream_id, ctx),
{
    let mut frame = Frame::new(OperationCode::UNKNOWN(), ids);
    frame.operation_code = operation_code(request_operation(kind));
    frame.header = Some(header);
    frame.payload = body;
    table.register(frame.stream_id, ctx);
    frame
}

/// A request prepared under stream id `stream_id` is the one that a response with that
/// stream id answers or drops, and the one handed back when writing its frame fails; either
/// way the table then holds what it held before, but for that stream id.
pub proof fn lemma_prepared_request_matched<C>(
    before: Map<u32, C>,
    after: Map<u32, C>,
    stream_id: u32,
    ctx: C,
    op: ClientOperation,
)
    requires
        after == before.insert(stream_id, ctx),
        op != ClientOperation::Heartbeat,
    ensures
        after.contains_key(stream_id),
        after[stream_id] == ctx,
        after_response(after, op, stream_id) == before.remove(stream_id),
        after.remove(stream_id) == before.remove(stream_id),
{
    assert(after.remove(stream_id) =~= before.remove(stream_id));
}

/// Operation codes name operations one to one.
pub proof fn lemma_operation_code_roundtrip(op: ClientOperation, op2: ClientOperation)
    ensures
        spec_operation_code(op) == spec_operation_code(op2) ==> op == op2,
{
}

/// The operation whose responses a handler decodes; none for the system-error handler, which
/// decodes an error of any operation.
pub open spec fn handler_operation(h: ResponseHandler) -> Option<ClientOperation> {
    match h {
        ResponseHandler::SystemError => None,
        ResponseHandler::ListRanges => Some(ClientOperation::ListRange),
        ResponseHandler::AllocateId => Some(ClientOperation::AllocateId),
        ResponseHandler::Append => Some(ClientOperation::Append),
        ResponseHandler::Fetch => Some(ClientOperation::Fetch),
        ResponseHandler::CreateRange => Some(ClientOperation::CreateRange),
        ResponseHandler::SealRange => Some(ClientOperation::SealRange),
        ResponseHandler::CreateStream => Some(ClientOperation::CreateStream),
        ResponseHandler::DescribeStream => Some(ClientOperation::DescribeStream),
        ResponseHandler::ReportMetrics => Some(ClientOperation::ReportMetrics),
        ResponseHandler::DescribePlacementDriver => Some(
            ClientOperation::DescribePlacementDriver,
        ),
    }
}

/// The request kind named like operation `op`, if a client sends requests of that operation.
pub open spec fn kind_named(op: ClientOperation) -> Option<RequestKind> {
    match op {
        ClientOperation::Heartbeat => Some(RequestKind::Heartbeat),
        ClientOperation::CreateStream => Some(RequestKind::CreateStream),
        ClientOperation::DescribeStream => Some(RequestKind::DescribeStream),
        ClientOperation::ListRange => Some(RequestKind::ListRange),
        ClientOperation::AllocateId => Some(RequestKind::AllocateId),
        ClientOperation::DescribePlacementDriver => Some(RequestKind::DescribePlacementDriver),
        ClientOperation::CreateRange => Some(RequestKind::CreateRange),
        ClientOperation::SealRange => Some(RequestKind::SealRange),
        ClientOperation::Append => Some(RequestKind::Append),
        ClientOperation::Fetch => Some(RequestKind::Fetch),
        ClientOperation::ReportMetrics => Some(RequestKind::ReportMetrics),
        _ => None,
    }
}

/// Each request kind travels as the operation of the same name, so different kinds travel
/// as different operations.
pub proof fn lemma_request_travels_as_its_operation(kind: RequestKind, other: RequestKind)
    ensures
        kind_named(spec_request_operation(kind)) == Some(kind),
        spec_request_operation(kind) == spec_request_operation(other) ==> kind == other,
{
}

/// Where responses go: a heartbeat response is ignored; any other response with no request
/// waiting is reported missing; one reporting a system error is answered by the system-error
/// handler; otherwise the waiting request is answered by the handler of the response's own
/// operation, or dropped when the operation has no answer (unknown, sync-range,
/// delete-stream, update-stream).
pub proof fn lemma_response_goes_to_its_handler(
    op: ClientOperation,
    system_error: bool,
    waiting: bool,
)
    requires
        waiting ==> routable(op, system_error),
    ensures
        op == ClientOperation::Heartbeat ==> spec_route_response(op, system_error, waiting)
            == ResponseRoute::Ignore,
        op != ClientOperation::Heartbeat && !waiting ==> spec_route_response(
            op,
            system_error,
            waiting,
        ) == ResponseRoute::Missing,
        op != ClientOperation::Heartbeat && waiting && system_error ==> spec_route_response(
            op,
            system_error,
            waiting,
        ) == ResponseRoute::Answer(ResponseHandler::SystemError),
        op != ClientOperation::Heartbeat && waiting && !system_error ==> match spec_route_response(
            op,
            system_error,
            waiting,
        ) {
            ResponseRoute::Answer(h) => handler_operation(h) == Some(op),
            ResponseRoute::Discard => op == ClientOperation::Unknown || op
                == ClientOperation::SyncRange || op == ClientOperation::DeleteStream || op
                == ClientOperation::UpdateStream,
            _ => false,
        },
        op != ClientOperation::Heartbeat && waiting && !system_error && kind_named(op) is Some
            ==> spec_route_response(op, system_error, waiting) is Answer,
{
}

/// The read loop routes every response frame, skips every request frame, keeps reading
/// while a frame is incomplete, closes the session exactly when reading failed or the peer
/// closed the connection, and stops without closing it exactly on shutdown.
pub proof fn lemma_read_loop_actions(e: ReadEvent)
    ensures
        (spec_read_loop_step(e) == LoopAction::HandleResponse) == (e == ReadEvent::Frame {
            is_response: true,
        }),
        (spec_read_loop_step(e) == LoopAction::IgnoreRequest) == (e == ReadEvent::Frame {
            is_response: false,
        }),
        (spec_read_loop_step(e) == LoopAction::Continue) == (e == ReadEvent::Incomplete),
        (spec_read_loop_step(e) == LoopAction::CloseSession) == (e == ReadEvent::Failed || e
            == ReadEvent::Closed),
        (spec_read_loop_step(e) == LoopAction::Stop) == (e == ReadEvent::Shutdown),
{
}

} // verus!
