//! The typed failures of the ledger's operations. Every failure leaves the
//! ledger and the staker's account as they were.

use vstd::prelude::*;

verus! {

#[derive(Debug, Clone, Copy, PartialEq, Eq, Structural)]
pub enum StakingErrors {
    /// An amount of zero was given where a positive one is needed.
    AmountMustBePositive,
    /// The external account that pays in holds less than the amount.
    InsufficientBalance,
    /// The registry already holds its maximum number of stakers.
    RegistryFull,
    /// The staker has no entry in the pool's registry.
    StakerNotFound,
    /// More was asked back than the staker has staked.
    InsufficientStakedBalance,
    /// More was asked back than the pool holds in escrow.
    InsufficientEscrowBalance,
    /// More reward was claimed than the staker has gained.
    InsufficientGainedReward,
    /// The funding window is shorter than the pool's minimum window.
    WindowBelowMinimum,
    /// The funding window is shorter than the pool's minimum stake period.
    WindowBelowStakePeriod,
    /// A policy value is out of its bounds.
    InvalidPolicy,
    /// The caller is not the identity that the operation requires.
    Unauthorized,
    /// The staker's account does not belong to this pool.
    InvalidStakingAccount,
    /// A value would leave its range (a counter past `u64::MAX`, pending
    /// rewards above the reward account's balance).
    InvariantViolation,
}

} // verus!
