//! Decisions of a range-server worker.
use vstd::prelude::*;

verus! {

/// What the drain loop of a worker that stopped accepting connections saw.
#[derive(Debug, Clone, Copy, PartialEq, Eq, Structural)]
pub enum DrainEvent {
    /// The open connections were counted.
    Counted { remaining: usize },
    /// The one-second sleep ended, `elapsed_ms` after draining began.
    Slept { elapsed_ms: u64, grace_ms: u64 },
}

/// What the drain loop does next.
#[derive(Debug, Clone, Copy, PartialEq, Eq, Structural)]
pub enum DrainAction {
    /// Stop waiting.
    Done,
    /// Sleep one second, then look at the clock.
    Sleep,
    /// Count the open connections again.
    Recount,
}

/// The drain loop's next action: done when no connection remains, else sleep one second;
/// after the sleep, done once the grace period has elapsed, else count again.
pub fn drain_step(e: DrainEvent) -> (a: DrainAction)
    ensures
        a == match e {
            DrainEvent::Counted { remaining } => if remaining == 0 {
                DrainAction::Done
            } else {
                DrainAction::Sleep
            },
            DrainEvent::Slept { elapsed_ms, grace_ms } => if elapsed_ms >= grace_ms {
                DrainAction::Done
            } else {
                DrainAction::Recount
            },
        },
{
    match e {
        DrainEvent::Counted { remaining } => {
            if remaining == 0 {
                DrainAction::Done
            } else {
                DrainAction::Sleep
            }
        },
        DrainEvent::Slept { elapsed_ms, grace_ms } => {
            if elapsed_ms >= grace_ms {
                DrainAction::Done
            } else {
                DrainAction::Recount
            }
        },
    }
}

/// What the accept loop of a worker saw.
#[derive(Debug, Clone, Copy, PartialEq, Eq, Structural)]
pub enum AcceptEvent {
    /// The shutdown signal arrived.
    Shutdown,
    /// Accepting a connection failed.
    AcceptFailed,
    /// A connection was accepted.
    Accepted,
}

/// What the accept loop does next.
#[derive(Debug, Clone, Copy, PartialEq, Eq, Structural)]
pub enum AcceptAction {
    /// Serve the new connection in a session of its own, then accept again.
    StartSession,
    /// Stop accepting: tell the open connections to go away and wait for them.
    StopAccepting,
}

/// The accept loop's next action: a new connection gets a session; a shutdown signal or a
/// failed accept ends accepting.
pub fn accept_loop_step(e: AcceptEvent) -> (a: AcceptAction)
    ensures
        a == (if e == AcceptEvent::Accepted {
            AcceptAction::StartSession
        } else {
            AcceptAction::StopAccepting
        }),
{
    match e {
        AcceptEvent::Accepted => AcceptAction::StartSession,
        AcceptEvent::Shutdown => AcceptAction::StopAccepting,
        AcceptEvent::AcceptFailed => AcceptAction::StopAccepting,
    }
}

} // verus!
