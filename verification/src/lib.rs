//! A non-custodial staking core for unique tokens.
//!
//! A holder locks a token in place without giving up ownership, accrues a
//! reward of one unit per elapsed second, and later unlocks the token and
//! collects the reward.  The crate verifies the staking state machine: the
//! per-pair stake record lifecycle (`ledger`), the delegation capability that
//! locks a token without moving it (`registry`), the time-based reward
//! computation (`reward`), the two orchestrators that sequence a whole
//! stake or unstake cycle (`protocol`), and the derivation of the protocol's
//! scoped signing identities (`authority`).

pub mod authority;
pub mod errors;
pub mod ledger;
pub mod protocol;
pub mod registry;
pub mod reward;
