//! The decision taken on each turn of the loop that waits on a udev monitor socket.
use vstd::prelude::*;

verus! {

/// How long the loop sleeps when the socket was ready but held no event.
pub const IDLE_SLEEP_MILLIS: u64 = 10;

/// What the wait loop does next.
#[derive(PartialEq, Eq, Structural, Debug, Clone, Copy)]
pub enum PollAction {
    /// The wait failed: stop and report the operating system's error.
    ReportError,
    /// An event was received: hand it to the caller's action.
    HandleEvent,
    /// No event was there: sleep this many milliseconds, then wait again.
    Sleep { millis: u64 },
}

/// The next step of the wait loop, from what the wait on the socket returned
/// (`ready`, negative on failure) and whether the socket then yielded an event.
pub fn poll_action(ready: i32, event_received: bool) -> (action: PollAction)
    ensures
        ready < 0 ==> action == PollAction::ReportError,
        ready >= 0 && event_received ==> action == PollAction::HandleEvent,
        ready >= 0 && !event_received ==> action == (PollAction::Sleep { millis: 10 }),
{
    if ready < 0 {
        PollAction::ReportError
    } else if event_received {
        PollAction::HandleEvent
    } else {
        PollAction::Sleep { millis: IDLE_SLEEP_MILLIS }
    }
}

} // verus!
