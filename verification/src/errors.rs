//! Typed failures of the pool operations.
//!
//! Every rejection an operation can produce is a variant here; contracts
//! state exactly on which inputs each variant is returned.

use vstd::prelude::*;

verus! {

/// The reasons a pool operation refuses to act.
#[derive(Clone, Copy, Debug, PartialEq, Eq, Structural)]
pub enum PoolError {
    /// A conversion was asked of a pool whose staked balance or issued
    /// shares are zero.
    PoolEmpty,
    /// The shares computed for a stake or unstake request are zero.
    ZeroShares,
    /// The amount to charge for minted shares came out zero.
    ZeroCharge,
    /// The amount to credit for burned shares came out zero.
    ZeroReceive,
    /// The account's unstaked balance does not cover the request.
    InsufficientUnstakedBalance,
    /// The account owns fewer shares than the request needs.
    InsufficientShares,
    /// The amount of a withdrawal must be positive.
    PositiveAmountRequired,
    /// The unstaked balance is still locked by the unstaking delay.
    UnlockPending,
    /// The caller is not the owner of the pool.
    NotOwner,
    /// A reward fee fraction with a zero denominator or a numerator above
    /// its denominator.
    InvalidRewardFraction,
}

} // verus!
