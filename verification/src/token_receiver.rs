//! The token-receiver entry: what the pool does when the base-asset token
//! contract notifies it of a received transfer.
//!
//! Decoding the transfer's message into a [`UserAction`] is the transport
//! layer's concern; the pool only decides and bookkeeps.

use vstd::prelude::*;

use crate::errors::PoolError;
use crate::pool::{MintRequest, StakingContract, spec_deposit_applied};

verus! {

/// The action a transfer message can request beyond a plain deposit.
#[derive(Clone, Copy, Debug, PartialEq, Eq, Structural)]
pub enum UserAction {
    DepositAndStake,
}

impl StakingContract {
    /// Handles a received token transfer: a plain deposit when no action
    /// is requested, or a deposit immediately staked.  Returns the "mint
    /// shares" request to dispatch, if the transfer asked to stake.
    pub fn ft_on_transfer(
        &mut self,
        sender_id: &String,
        amount: u128,
        action: Option<UserAction>,
        epoch_height: u64,
    ) -> (r: Result<Option<MintRequest>, PoolError>)
        requires
            old(self).wf(),
            old(self).spec_account(sender_id@).unstaked + amount <= u128::MAX,
            old(self).last_total_balance + amount <= u128::MAX,
        ensures
            final(self).wf(),
            action is None ==> (r == Ok::<Option<MintRequest>, PoolError>(None)
                && spec_deposit_applied(
                    *old(self),
                    *final(self),
                    sender_id@,
                    amount as int,
                    epoch_height,
                )),
            action == Some(UserAction::DepositAndStake) ==> (match old(self).spec_stake_error(
                old(self).spec_account(sender_id@).unstaked + amount,
                amount as int,
            ) {
                Some(e) => r == Err::<Option<MintRequest>, PoolError>(e)
                    && *final(self) == old(self).spec_ping(epoch_height),
                None => (r matches Ok(Some(req)) && req.account_id@ == sender_id@
                    && req.num_shares == old(self).spec_stake_shares(amount as int)
                    && req.charge_amount == old(self).spec_stake_charge(amount as int)
                    && req.wf()
                    && spec_deposit_applied(
                        *old(self),
                        *final(self),
                        sender_id@,
                        amount as int,
                        epoch_height,
                    )),
            }),
    {
        match action {
            None => {
                self.internal_deposit(sender_id, amount, epoch_height);
                Ok(None)
            },
            Some(UserAction::DepositAndStake) => {
                match self.internal_deposit_and_stake(sender_id, amount, epoch_height) {
                    Ok(req) => Ok(Some(req)),
                    Err(e) => Err(e),
                }
            },
        }
    }
}

} // verus!
