use vstd::prelude::*;

verus! {

/// The error taxonomy of the staking core.
///
/// Every variant but `RewardIssuanceFailed` aborts the enclosing operation
/// before any state mutation commits.  `RewardIssuanceFailed` is deliberately
/// non-fatal: the unstake path records it in its receipt and still releases
/// the staked token.
#[derive(Clone, Copy, Debug, PartialEq, Eq, Structural)]
pub enum StakeError {
    /// `stake` was attempted while a record already exists for the
    /// (holder, token account) pair.
    AlreadyStaked,
    /// `unstake` was attempted with no record for the pair.
    NotStaked,
    /// The holder does not control the token account, or the delegate does
    /// not match during grant, lock, unlock or revoke.
    DelegationDenied,
    /// The master record handed in does not belong to the token's asset.
    InvalidAssetReference,
    /// The reward mint refused issuance; recorded, never fatal to `unstake`.
    RewardIssuanceFailed,
    /// The clock reported a time before the recorded stake start.  This is an
    /// internal-invariant failure and is never silently masked.
    ClockInvariantViolation,
}

} // verus!
