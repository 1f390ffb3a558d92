//! The per-delegator record of the ledger.

use vstd::prelude::*;

verus! {

/// Inner account data of a delegate.
///
/// `unstaked` is redeemable after the unstaking delay expires at
/// `unstaked_available_epoch_height`; `stake_shares` is the account's share
/// of the pool; `stake_principal` is the base-asset value the account put
/// into its stake position, used to compute its reward.
#[derive(Clone, Copy, Debug, PartialEq, Eq, Structural)]
pub struct Account {
    pub unstaked: u128,
    pub stake_shares: u128,
    pub unstaked_available_epoch_height: u64,
    pub stake_principal: u128,
}

impl Account {
    /// The zero-initialised record a fresh delegate starts from.
    pub open spec fn zeroed() -> Account {
        Account {
            unstaked: 0,
            stake_shares: 0,
            unstaked_available_epoch_height: 0,
            stake_principal: 0,
        }
    }

    /// An account with nothing unstaked and no shares; such a record is
    /// removed from the ledger rather than stored.
    pub open spec fn is_empty(self) -> bool {
        self.unstaked == 0 && self.stake_shares == 0
    }
}

impl Default for Account {
    /// The record a delegate starts from: all balances zero.
    fn default() -> (result: Account)
        ensures
            result == Account::zeroed(),
    {
        Account {
            unstaked: 0,
            stake_shares: 0,
            unstaked_available_epoch_height: 0,
            stake_principal: 0,
        }
    }
}

} // verus!
