use vstd::prelude::*;
use crate::errors::StakeError;

verus! {

/// Reward owed for a stake that started at `started_at` and ends at `now`:
/// one reward unit per elapsed second.
pub open spec fn reward_amount(started_at: u64, now: u64) -> int {
    now - started_at
}

/// Compute the reward for an elapsed stake.
///
/// Succeeds exactly when the clock has not run backwards; a `now` before
/// `started_at` is an invariant violation, reported and never masked.
pub fn compute_reward(started_at: u64, now: u64) -> (r: Result<u64, StakeError>)
    ensures
        r is Ok <==> started_at <= now,
        r is Ok ==> r->Ok_0 == reward_amount(started_at, now),
        r is Err ==> r->Err_0 == StakeError::ClockInvariantViolation,
{
    if started_at <= now {
        Ok(now - started_at)
    } else {
        Err(StakeError::ClockInvariantViolation)
    }
}

} // verus!
