//! The registry of open replication streams and the decisions of the request loop that
//! serves them: which requests run on an open stream, which take the stream out of the
//! registry, and what a stream creation answers.
use vstd::prelude::*;
use std::collections::HashMap;
use crate::range_manager::StreamMetadata;

verus! {

/// Why a replication request failed.
#[derive(Debug, Clone, Copy, PartialEq, Eq, Structural)]
pub enum ReplicationError {
    /// No open stream has the requested identifier.
    StreamNotExist,
    /// The request failed for a reason internal to the service.
    Internal,
}

/// The requests the stream manager serves.
#[derive(Debug, Clone, Copy, PartialEq, Eq, Structural)]
pub enum StreamRequestKind {
    Append,
    Read,
    CreateStream,
    OpenStream,
    CloseStream,
    StartOffset,
    NextOffset,
    Trim,
}

/// How the request loop serves a request.
#[derive(Debug, Clone, Copy, PartialEq, Eq, Structural)]
pub enum StreamPlan {
    /// Runs on the open stream, which stays in the registry.
    OnOpenStream,
    /// Takes the stream out of the registry, then runs on it.
    DetachThenRun,
    /// Asks the placement driver through the client; no stream is involved.
    ThroughClient,
    /// Opens the stream, and registers it once it opened.
    OpenThenRegister,
}

/// The plan of each request kind.
pub open spec fn plan_of(kind: StreamRequestKind) -> StreamPlan {
    match kind {
        StreamRequestKind::Append => StreamPlan::OnOpenStream,
        StreamRequestKind::Read => StreamPlan::OnOpenStream,
        StreamRequestKind::StartOffset => StreamPlan::OnOpenStream,
        StreamRequestKind::NextOffset => StreamPlan::OnOpenStream,
        StreamRequestKind::CloseStream => StreamPlan::DetachThenRun,
        StreamRequestKind::Trim => StreamPlan::DetachThenRun,
        StreamRequestKind::CreateStream => StreamPlan::ThroughClient,
        StreamRequestKind::OpenStream => StreamPlan::OpenThenRegister,
    }
}

/// How the request loop serves a request of kind `kind`.
pub fn plan(kind: StreamRequestKind) -> (p: StreamPlan)
    ensures
        p == plan_of(kind),
{
    match kind {
        StreamRequestKind::Append => StreamPlan::OnOpenStream,
        StreamRequestKind::Read => StreamPlan::OnOpenStream,
        StreamRequestKind::StartOffset => StreamPlan::OnOpenStream,
        StreamRequestKind::NextOffset => StreamPlan::OnOpenStream,
        StreamRequestKind::CloseStream => StreamPlan::DetachThenRun,
        StreamRequestKind::Trim => StreamPlan::DetachThenRun,
        StreamRequestKind::CreateStream => StreamPlan::ThroughClient,
        StreamRequestKind::OpenStream => StreamPlan::OpenThenRegister,
    }
}

/// The metadata a stream is created with: no identifier yet, the placement driver assigns it.
pub fn new_stream_metadata(replica: u8, ack_count: u8, retention_period_secs: u64) -> (m:
    StreamMetadata)
    ensures
        m == (StreamMetadata {
            stream_id: None,
            replica,
            ack_count,
            retention_period_secs,
        }),
{
    StreamMetadata { stream_id: None, replica, ack_count, retention_period_secs }
}

/// The answer to a stream creation, from what the client returned: the identifier the
/// placement driver assigned, or `Internal` when the client failed.
pub fn create_stream_response<E>(created: Result<StreamMetadata, E>) -> (r: Result<
    u64,
    ReplicationError,
>)
    requires
        created matches Ok(m) ==> m.stream_id is Some,
    ensures
        match created {
            Ok(m) => r == Ok::<u64, ReplicationError>(m.stream_id->0),
            Err(_) => r == Err::<u64, ReplicationError>(ReplicationError::Internal),
        },
{
    match created {
        Ok(m) => match m.stream_id {
            Some(id) => Ok(id),
            None => Err(ReplicationError::Internal),
        },
        Err(_) => Err(ReplicationError::Internal),
    }
}

/// The open streams, by identifier.
pub struct StreamRegistry<H> {
    pub streams: HashMap<u64, H>,
}

impl<H> StreamRegistry<H> {
    /// The open stream under `stream_id`, if any.
    pub open spec fn open_stream(&self, stream_id: u64) -> Option<H> {
        if self.streams@.contains_key(stream_id) {
            Some(self.streams@[stream_id])
        } else {
            None
        }
    }

    /// A registry without open streams.
    pub fn new() -> (r: Self)
        ensures
            r.streams@ == Map::<u64, H>::empty(),
    {
        StreamRegistry { streams: HashMap::new() }
    }

    /// The open stream a request on `stream_id` runs on (append, read, start offset, next
    /// offset); `StreamNotExist` when none is open.
    pub fn stream_for(&self, stream_id: u64) -> (r: Result<&H, ReplicationError>)
        ensures
            match self.open_stream(stream_id) {
                Some(h) => r == Ok::<&H, ReplicationError>(&h),
                None => r == Err::<&H, ReplicationError>(ReplicationError::StreamNotExist),
            },
    {
        proof {
            broadcast use vstd::std_specs::hash::group_hash_axioms;
        }
        match self.streams.get(&stream_id) {
            Some(h) => Ok(h),
            None => Err(ReplicationError::StreamNotExist),
        }
    }

    /// Takes the stream under `stream_id` out of the registry, for a close or a trim to run
    /// on it; `StreamNotExist` when none is open.
    pub fn detach(&mut self, stream_id: u64) -> (r: Result<H, ReplicationError>)
        ensures
            final(self).streams@ == old(self).streams@.remove(stream_id),
            match old(self).open_stream(stream_id) {
                Some(h) => r == Ok::<H, ReplicationError>(h),
                None => r == Err::<H, ReplicationError>(ReplicationError::StreamNotExist),
            },
    {
        proof {
            broadcast use vstd::std_specs::hash::group_hash_axioms;
        }
        match self.streams.remove(&stream_id) {
            Some(h) => Ok(h),
            None => Err(ReplicationError::StreamNotExist),
        }
    }

    /// Registers a stream that opened, in place of one under the same identifier.
    pub fn register(&mut self, stream_id: u64, stream: H)
        ensures
            final(self).streams@ == old(self).streams@.insert(stream_id, stream),
    {
        proof {
            broadcast use vstd::std_specs::hash::group_hash_axioms;
        }
        self.streams.insert(stream_id, stream);
    }
}

/// Once a stream is closed or trimmed, requests on it find no open stream until it is
/// opened again, and every other stream stays as it was.
pub proof fn lemma_detached_stream_not_found<H>(
    before: StreamRegistry<H>,
    after: StreamRegistry<H>,
    stream_id: u64,
    other: u64,
)
    requires
        after.streams@ == before.streams@.remove(stream_id),
    ensures
        after.open_stream(stream_id) is None,
        other != stream_id ==> after.open_stream(other) == before.open_stream(other),
{
}

/// Once a stream is registered, requests on it run on that stream, and every other stream
/// stays as it was.
pub proof fn lemma_registered_stream_found<H>(
    before: StreamRegistry<H>,
    after: StreamRegistry<H>,
    stream_id: u64,
    stream: H,
    other: u64,
)
    requires
        after.streams@ == before.streams@.insert(stream_id, stream),
    ensures
        after.open_stream(stream_id) == Some(stream),
        other != stream_id ==> after.open_stream(other) == before.open_stream(other),
{
}

} // verus!
