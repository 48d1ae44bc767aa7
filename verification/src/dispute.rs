//! The challenge window of a closed channel.

use vstd::prelude::*;

use crate::error::Error;

verus! {

/// The window that opened at ledger `closed_at` still runs at ledger `now`.
pub open spec fn window_runs(now: u32, closed_at: u32, challenge_period: u32) -> bool {
    now <= closed_at.saturating_add(challenge_period)
}

/// Refuses once the challenge window has elapsed.
pub fn ensure_window_open(now: u32, closed_at: u32, challenge_period: u32) -> (checked: Result<
    (),
    Error,
>)
    ensures
        checked == if window_runs(now, closed_at, challenge_period) {
            Ok::<(), Error>(())
        } else {
            Err(Error::ChallengeExpired)
        },
{
    if now <= closed_at.saturating_add(challenge_period) {
        Ok(())
    } else {
        Err(Error::ChallengeExpired)
    }
}

/// Refuses while the challenge window still runs.
pub fn ensure_window_elapsed(now: u32, closed_at: u32, challenge_period: u32) -> (checked: Result<
    (),
    Error,
>)
    ensures
        checked == if window_runs(now, closed_at, challenge_period) {
            Err::<(), Error>(Error::ChallengeActive)
        } else {
            Ok(())
        },
{
    if now <= closed_at.saturating_add(challenge_period) {
        Err(Error::ChallengeActive)
    } else {
        Ok(())
    }
}

} // verus!
