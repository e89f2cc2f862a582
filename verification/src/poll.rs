//! Waiting for an eventually-consistent registry to show a version that
//! was just published.  The decision logic lives here; the clock, the
//! sleeping and the registry query are the caller's.

use vstd::prelude::*;

verus! {

/// What the poller does after one registry check.
#[derive(Debug, Copy, Clone, PartialEq, Eq, Structural)]
pub enum PollDecision {
    /// The registry shows the version: stop polling at once.
    Confirmed,
    /// The deadline passed without confirmation: log a warning and
    /// proceed anyway.  A timeout never fails the run, because registry
    /// propagation delay is transient and blocking indefinitely would be
    /// worse than an occasional spurious dependent failure.
    TimedOut,
    /// Not visible yet and time remains: sleep one interval and check
    /// again.
    Retry,
}

/// The poller's decision after one check: confirmation wins, then the
/// deadline, else another round.
pub fn poll_step(found: bool, elapsed_secs: u64, poll_timeout_secs: u64) -> (r: PollDecision)
    ensures
        found ==> r == PollDecision::Confirmed,
        !found && elapsed_secs >= poll_timeout_secs ==> r == PollDecision::TimedOut,
        !found && elapsed_secs < poll_timeout_secs ==> r == PollDecision::Retry,
{
    if found {
        PollDecision::Confirmed
    } else if elapsed_secs >= poll_timeout_secs {
        PollDecision::TimedOut
    } else {
        PollDecision::Retry
    }
}

/// How long the poller has slept after a number of full intervals; the
/// product saturates rather than wrapping.
pub fn elapsed_after(rounds: u64, poll_interval_secs: u64) -> (r: u64)
    ensures
        rounds * poll_interval_secs <= u64::MAX ==> r == rounds * poll_interval_secs,
        rounds * poll_interval_secs > u64::MAX ==> r == u64::MAX,
{
    match rounds.checked_mul(poll_interval_secs) {
        Some(v) => v,
        None => u64::MAX,
    }
}

} // verus!
