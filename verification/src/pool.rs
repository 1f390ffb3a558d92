//! The pool: aggregate state, share-price conversions, and the
//! stake / unstake / withdraw lifecycle.
//!
//! All mutation is synchronous except the mint/burn confirmations: `stake`
//! and the slow path of `unstake` only dispatch a request (a [`MintRequest`]
//! or [`BurnRequest`] value handed to the caller) and leave the state
//! untouched, so a failed confirmation needs no compensating mutation.  The
//! confirmation handlers [`StakingContract::on_mint_result`] and
//! [`StakingContract::on_burn_result`] apply or abandon the pending change.

use vstd::prelude::*;
use vstd::arithmetic::div_mod::*;
use vstd::arithmetic::mul::*;

use crate::account::Account;
use crate::errors::PoolError;
use crate::fraction::RewardFeeFraction;
use crate::ledger::AccountLedger;
use crate::ledger::lemma_shares_sum_entry_bound;
use crate::wide::{mul_div_floor, mul_div_ceil};

verus! {

/// The number of epochs between an unstake and the balance becoming
/// withdrawable.
pub const NUM_EPOCHS_TO_UNLOCK: u64 = 4;

/// A pending "mint shares" confirmation: the stake flow dispatches it and
/// mutates nothing until [`StakingContract::on_mint_result`] confirms it.
pub struct MintRequest {
    pub account_id: String,
    pub charge_amount: u128,
    pub num_shares: u128,
}

impl MintRequest {
    /// Every request the stake flow produces grants at least one share and
    /// charges at least one base-asset unit per share, because the share
    /// price never falls below one.
    pub open spec fn wf(self) -> bool {
        0 < self.num_shares <= self.charge_amount
    }
}

/// A pending "burn shares" confirmation: the slow unstake path dispatches
/// it and mutates nothing until [`StakingContract::on_burn_result`]
/// confirms it.
pub struct BurnRequest {
    pub account_id: String,
    pub num_shares: u128,
    pub receive_amount: u128,
    pub principal_reduced: u128,
}

/// What an unstake call did: finished locally on the fast path, or
/// dispatched a burn that awaits confirmation.
pub enum UnstakeOutcome {
    Completed,
    BurnRequested(BurnRequest),
}

/// The integer share price `total_staked_balance / total_stake_shares`
/// does not decrease from `pre` to `post`, as long as shares remain issued
/// on both sides.
pub open spec fn share_price_non_decreasing(pre: StakingContract, post: StakingContract) -> bool {
    pre.total_stake_shares > 0 && post.total_stake_shares > 0
        ==> post.total_staked_balance as int / post.total_stake_shares as int
            >= pre.total_staked_balance as int / pre.total_stake_shares as int
}

/// The delegated-staking pool.
pub struct StakingContract {
    pub owner_id: String,
    pub stake_public_key: Vec<u8>,
    pub last_epoch_height: u64,
    pub last_total_balance: u128,
    pub total_staked_balance: u128,
    pub total_stake_shares: u128,
    pub reward_fee_fraction: RewardFeeFraction,
    pub accounts: AccountLedger,
    pub paused: bool,
    pub token_contract: String,
}

impl StakingContract {
    /// The pool invariant: the ledger is a well-formed map, the issued
    /// shares are exactly the shares the ledger holds, balance and shares
    /// are zero together, and the share price is at least one.
    pub open spec fn wf(self) -> bool {
        &&& self.accounts.wf()
        &&& self.accounts.sum_of_shares() == self.total_stake_shares
        &&& (self.total_staked_balance == 0 <==> self.total_stake_shares == 0)
        &&& self.total_stake_shares <= self.total_staked_balance
    }

    /// The record the ledger holds for `id`, or the zeroed record.
    pub open spec fn spec_account(self, id: Seq<char>) -> Account {
        self.accounts.spec_account(id)
    }

    /// The fields an operation never touches.
    pub open spec fn same_config(self, other: StakingContract) -> bool {
        &&& self.owner_id == other.owner_id
        &&& self.stake_public_key == other.stake_public_key
        &&& self.reward_fee_fraction == other.reward_fee_fraction
        &&& self.paused == other.paused
        &&& self.token_contract == other.token_contract
    }

    /// `floor(total_stake_shares * amount / total_staked_balance)`:
    /// the shares whose value is `amount`, rounded down.
    pub open spec fn spec_shares_from_amount_down(self, amount: int) -> int {
        (self.total_stake_shares as int) * amount / (self.total_staked_balance as int)
    }

    /// `ceil(total_stake_shares * amount / total_staked_balance)`:
    /// the shares whose value is `amount`, rounded up.
    pub open spec fn spec_shares_from_amount_up(self, amount: int) -> int {
        ((self.total_stake_shares as int) * amount + self.total_staked_balance - 1)
            / (self.total_staked_balance as int)
    }

    /// `floor(total_staked_balance * num_shares / total_stake_shares)`:
    /// the value of `num_shares`, rounded down.
    pub open spec fn spec_amount_from_shares_down(self, num_shares: int) -> int {
        (self.total_staked_balance as int) * num_shares / (self.total_stake_shares as int)
    }

    /// `ceil(total_staked_balance * num_shares / total_stake_shares)`:
    /// the value of `num_shares`, rounded up.
    pub open spec fn spec_amount_from_shares_up(self, num_shares: int) -> int {
        ((self.total_staked_balance as int) * num_shares + self.total_stake_shares - 1)
            / (self.total_stake_shares as int)
    }

    /// Returns the number of "stake" shares corresponding to the given
    /// staked balance amount, rounded down.
    ///
    /// The computation keeps the share price fixed:
    /// `num_shares = amount * total_stake_shares / total_staked_balance`.
    pub fn num_shares_from_staked_amount_rounded_down(&self, amount: u128)
        -> (r: Result<u128, PoolError>)
        requires
            self.total_staked_balance > 0
                ==> self.spec_shares_from_amount_down(amount as int) <= u128::MAX,
        ensures
            self.total_staked_balance == 0
                ==> r == Err::<u128, PoolError>(PoolError::PoolEmpty),
            self.total_staked_balance > 0
                ==> (r matches Ok(s) && s == self.spec_shares_from_amount_down(amount as int)),
            self.total_staked_balance > 0 && amount == 0 ==> r == Ok::<u128, PoolError>(0),
    {
        if self.total_staked_balance == 0 {
            return Err(PoolError::PoolEmpty);
        }
        proof {
            lemma_mul_nonnegative(self.total_stake_shares as int, amount as int);
            if amount == 0 {
                lemma_basic_div(0, self.total_staked_balance as int);
            }
        }
        Ok(mul_div_floor(self.total_stake_shares, amount, self.total_staked_balance))
    }

    /// Returns the number of "stake" shares corresponding to the given
    /// staked balance amount, rounded up, using `(n + d - 1) / d`.
    pub fn num_shares_from_staked_amount_rounded_up(&self, amount: u128)
        -> (r: Result<u128, PoolError>)
        requires
            self.total_staked_balance > 0
                ==> self.spec_shares_from_amount_up(amount as int) <= u128::MAX,
        ensures
            self.total_staked_balance == 0
                ==> r == Err::<u128, PoolError>(PoolError::PoolEmpty),
            self.total_staked_balance > 0
                ==> (r matches Ok(s) && s == self.spec_shares_from_amount_up(amount as int)),
    {
        if self.total_staked_balance == 0 {
            return Err(PoolError::PoolEmpty);
        }
        proof {
            lemma_mul_nonnegative(self.total_stake_shares as int, amount as int);
        }
        Ok(mul_div_ceil(self.total_stake_shares, amount, self.total_staked_balance))
    }

    /// Returns the staked amount corresponding to the given number of
    /// "stake" shares, rounded down.
    pub fn staked_amount_from_num_shares_rounded_down(&self, num_shares: u128)
        -> (r: Result<u128, PoolError>)
        requires
            self.total_stake_shares > 0
                ==> self.spec_amount_from_shares_down(num_shares as int) <= u128::MAX,
        ensures
            self.total_stake_shares == 0
                ==> r == Err::<u128, PoolError>(PoolError::PoolEmpty),
            self.total_stake_shares > 0
                ==> (r matches Ok(a) && a == self.spec_amount_from_shares_down(num_shares as int)),
    {
        if self.total_stake_shares == 0 {
            return Err(PoolError::PoolEmpty);
        }
        proof {
            lemma_mul_nonnegative(self.total_staked_balance as int, num_shares as int);
        }
        Ok(mul_div_floor(self.total_staked_balance, num_shares, self.total_stake_shares))
    }

    /// Returns the staked amount corresponding to the given number of
    /// "stake" shares, rounded up, using `(n + d - 1) / d`.
    pub fn staked_amount_from_num_shares_rounded_up(&self, num_shares: u128)
        -> (r: Result<u128, PoolError>)
        requires
            self.total_stake_shares > 0
                ==> self.spec_amount_from_shares_up(num_shares as int) <= u128::MAX,
        ensures
            self.total_stake_shares == 0
                ==> r == Err::<u128, PoolError>(PoolError::PoolEmpty),
            self.total_stake_shares > 0
                ==> (r matches Ok(a) && a == self.spec_amount_from_shares_up(num_shares as int)),
    {
        if self.total_stake_shares == 0 {
            return Err(PoolError::PoolEmpty);
        }
        proof {
            lemma_mul_nonnegative(self.total_staked_balance as int, num_shares as int);
        }
        Ok(mul_div_ceil(self.total_staked_balance, num_shares, self.total_stake_shares))
    }

    /// The state after the epoch-synchronisation step at `epoch_height`.
    pub open spec fn spec_ping(self, epoch_height: u64) -> StakingContract {
        if self.last_epoch_height == epoch_height {
            self
        } else {
            StakingContract { last_epoch_height: epoch_height, ..self }
        }
    }

    /// Records an epoch transition.  Run as the first step of every
    /// state-changing entry point; within one epoch it is a no-op, so it
    /// triggers epoch-bound bookkeeping at most once per epoch.
    pub fn internal_ping(&mut self, epoch_height: u64) -> (changed: bool)
        ensures
            *final(self) == old(self).spec_ping(epoch_height),
            changed == (old(self).last_epoch_height != epoch_height),
    {
        if self.last_epoch_height == epoch_height {
            return false;
        }
        self.last_epoch_height = epoch_height;
        true
    }

    /// Returns the given account, or a zero-initialised one.  Never fails.
    pub fn internal_get_account(&self, account_id: &String) -> (account: Account)
        requires
            self.accounts.keys_unique(),
        ensures
            account == self.spec_account(account_id@),
    {
        self.accounts.get_or_default(account_id)
    }

    /// Persists the given account, or removes it when both of its balances
    /// are zero, releasing its storage.
    pub fn internal_save_account(&mut self, account_id: &String, account: Account)
        requires
            old(self).accounts.wf(),
        ensures
            final(self).accounts.wf(),
            final(self).accounts.contains_id(account_id@) == !account.is_empty(),
            final(self).spec_account(account_id@)
                == (if account.is_empty() { Account::zeroed() } else { account }),
            forall|k: Seq<char>| k != account_id@
                ==> final(self).spec_account(k) == old(self).spec_account(k),
            forall|k: Seq<char>| k != account_id@
                ==> final(self).accounts.contains_id(k) == old(self).accounts.contains_id(k),
            final(self).accounts.sum_of_shares() == old(self).accounts.sum_of_shares()
                - old(self).spec_account(account_id@).stake_shares + account.stake_shares,
            final(self).same_config(*old(self)),
            final(self).last_epoch_height == old(self).last_epoch_height,
            final(self).last_total_balance == old(self).last_total_balance,
            final(self).total_staked_balance == old(self).total_staked_balance,
            final(self).total_stake_shares == old(self).total_stake_shares,
    {
        self.accounts.save(account_id, account);
    }

    /// The reward an account has accrued: the current redeemable value of
    /// its shares, rounded down, less its stake principal (never negative).
    pub open spec fn spec_stake_reward(self, account: Account) -> int {
        if self.total_stake_shares == 0 {
            0
        } else {
            let value = self.spec_amount_from_shares_down(account.stake_shares as int);
            if value >= account.stake_principal {
                value - account.stake_principal
            } else {
                0
            }
        }
    }

    /// Computes the stake reward of the given account.
    pub fn internal_get_stake_reward(&self, account_id: &String) -> (reward: u128)
        requires
            self.wf(),
        ensures
            reward == self.spec_stake_reward(self.spec_account(account_id@)),
    {
        let account = self.internal_get_account(account_id);
        if self.total_stake_shares == 0 {
            return 0;
        }
        proof {
            lemma_account_shares_bounded(*self, account_id@);
            lemma_amount_fit(
                self.total_staked_balance as int,
                self.total_stake_shares as int,
                account.stake_shares as int,
            );
        }
        let staked_balance = match self.staked_amount_from_num_shares_rounded_down(
            account.stake_shares,
        ) {
            Ok(v) => v,
            Err(_) => 0,
        };
        if staked_balance >= account.stake_principal {
            staked_balance - account.stake_principal
        } else {
            0
        }
    }
}

/// The full unstake transition: from `pre` (already epoch-synced), an
/// unstake of `amount` by `id` at `epoch_height` yields result `r` and
/// state `post`.  Errors and the slow path leave the state untouched; the
/// fast path applies the redemption immediately.
pub open spec fn spec_unstake_transition(
    pre: StakingContract,
    post: StakingContract,
    id: Seq<char>,
    amount: int,
    epoch_height: u64,
    r: Result<UnstakeOutcome, PoolError>,
) -> bool {
    match pre.spec_unstake_error(pre.spec_account(id), amount) {
        Some(e) => r == Err::<UnstakeOutcome, PoolError>(e) && post == pre,
        None => {
            let acct = pre.spec_account(id);
            let n = pre.spec_shares_from_amount_up(amount);
            let recv = pre.spec_amount_from_shares_up(n);
            if pre.spec_stake_reward(acct) >= recv {
                &&& r == Ok::<UnstakeOutcome, PoolError>(UnstakeOutcome::Completed)
                &&& post.total_staked_balance == pre.total_staked_balance
                    - pre.spec_amount_from_shares_down(n)
                &&& post.total_stake_shares == pre.total_stake_shares - n
                &&& post.spec_account(id).stake_shares == acct.stake_shares - n
                &&& post.spec_account(id).unstaked == acct.unstaked + recv
                &&& post.spec_account(id).unstaked_available_epoch_height
                    == epoch_height + NUM_EPOCHS_TO_UNLOCK
                &&& post.spec_account(id).stake_principal == acct.stake_principal
                &&& (forall|k: Seq<char>| k != id
                    ==> post.spec_account(k) == pre.spec_account(k))
                &&& post.last_total_balance == pre.last_total_balance
                &&& post.last_epoch_height == pre.last_epoch_height
                &&& post.same_config(pre)
            } else {
                &&& post == pre
                &&& (r matches Ok(UnstakeOutcome::BurnRequested(req))
                    && req.account_id@ == id
                    && req.num_shares == n
                    && req.receive_amount == recv
                    && req.principal_reduced == recv - pre.spec_stake_reward(acct)
                    && 0 < req.principal_reduced <= req.receive_amount)
            }
        },
    }
}

impl StakingContract {
    /// Why an unstake of `amount` by the holder of `account` is rejected,
    /// or `None` when it goes through.
    pub open spec fn spec_unstake_error(self, account: Account, amount: int) -> Option<PoolError> {
        if self.total_staked_balance == 0 {
            Some(PoolError::PoolEmpty)
        } else if self.spec_shares_from_amount_up(amount) == 0 {
            Some(PoolError::ZeroShares)
        } else if account.stake_shares < self.spec_shares_from_amount_up(amount) {
            Some(PoolError::InsufficientShares)
        } else if self.spec_amount_from_shares_up(self.spec_shares_from_amount_up(amount)) == 0 {
            Some(PoolError::ZeroReceive)
        } else {
            None
        }
    }

    /// Runs the unstake state machine for the given account.
    ///
    /// The shares surrendered are rounded up and the amount received is
    /// rounded up, but the pool's total is reduced by the *down*-rounded
    /// value of those shares: the difference is absorbed by the share-price
    /// guarantee fund, which is how the share price never decreases.
    ///
    /// When the account's accrued reward covers the amount received, the
    /// redemption needs no burn of derivative tokens: the fast path mutates
    /// immediately and the request is terminal.  Otherwise the principal
    /// itself must shrink: a "burn shares" request for the reduction is
    /// returned and nothing is mutated until
    /// [`StakingContract::on_burn_result`] confirms it.
    pub fn inner_unstake(&mut self, account_id: &String, amount: u128, epoch_height: u64)
        -> (r: Result<UnstakeOutcome, PoolError>)
        requires
            old(self).wf(),
            old(self).spec_account(account_id@).unstaked + old(self).total_staked_balance
                <= u128::MAX,
            epoch_height + NUM_EPOCHS_TO_UNLOCK <= u64::MAX,
        ensures
            final(self).wf(),
            share_price_non_decreasing(*old(self), *final(self)),
            spec_unstake_transition(
                *old(self),
                *final(self),
                account_id@,
                amount as int,
                epoch_height,
                r,
            ),
    {
        let account0 = self.internal_get_account(account_id);
        if self.total_staked_balance == 0 {
            return Err(PoolError::PoolEmpty);
        }
        proof {
            lemma_shares_fit(
                self.total_staked_balance as int,
                self.total_stake_shares as int,
                amount as int,
            );
        }
        let num_shares = match self.num_shares_from_staked_amount_rounded_up(amount) {
            Ok(v) => v,
            Err(e) => {
                return Err(e);
            },
        };
        if num_shares == 0 {
            return Err(PoolError::ZeroShares);
        }
        if account0.stake_shares < num_shares {
            return Err(PoolError::InsufficientShares);
        }
        proof {
            lemma_account_shares_bounded(*self, account_id@);
            lemma_amount_fit(
                self.total_staked_balance as int,
                self.total_stake_shares as int,
                num_shares as int,
            );
        }
        let receive_amount = match self.staked_amount_from_num_shares_rounded_up(num_shares) {
            Ok(v) => v,
            Err(e) => {
                return Err(e);
            },
        };
        if receive_amount == 0 {
            return Err(PoolError::ZeroReceive);
        }
        let stake_reward = self.internal_get_stake_reward(account_id);
        if stake_reward >= receive_amount {
            let unstake_amount = match self.staked_amount_from_num_shares_rounded_down(num_shares)
                {
                Ok(v) => v,
                Err(e) => {
                    return Err(e);
                },
            };
            let mut account = account0;
            account.stake_shares = account.stake_shares - num_shares;
            account.unstaked = account.unstaked + receive_amount;
            account.unstaked_available_epoch_height = epoch_height + NUM_EPOCHS_TO_UNLOCK;
            self.accounts.save(account_id, account);
            proof {
                lemma_unstake_totals(
                    self.total_staked_balance as int,
                    self.total_stake_shares as int,
                    num_shares as int,
                );
            }
            self.total_staked_balance = self.total_staked_balance - unstake_amount;
            self.total_stake_shares = self.total_stake_shares - num_shares;
            Ok(UnstakeOutcome::Completed)
        } else {
            let principal_reduced = receive_amount - stake_reward;
            Ok(UnstakeOutcome::BurnRequested(BurnRequest {
                account_id: account_id.clone(),
                num_shares,
                receive_amount,
                principal_reduced,
            }))
        }
    }

    /// Applies the confirmation of a dispatched "burn shares" request.  On
    /// success it applies the same decrements as the fast unstake path,
    /// reducing the stake principal by the reduction the request carries
    /// (never below zero); on failure nothing was mutated and nothing is:
    /// the request is rolled back and the funds remain staked.
    pub fn on_burn_result(&mut self, request: &BurnRequest, burn_succeeded: bool, epoch_height: u64)
        requires
            old(self).wf(),
            burn_succeeded ==> 0 < request.num_shares,
            burn_succeeded ==> 0 < request.receive_amount,
            burn_succeeded ==> request.num_shares
                <= old(self).spec_account(request.account_id@).stake_shares,
            burn_succeeded ==> old(self).spec_account(request.account_id@).unstaked
                + request.receive_amount <= u128::MAX,
            burn_succeeded ==> epoch_height + NUM_EPOCHS_TO_UNLOCK <= u64::MAX,
        ensures
            final(self).wf(),
            share_price_non_decreasing(*old(self), *final(self)),
            !burn_succeeded ==> *final(self) == *old(self),
            burn_succeeded ==> {
                let acct = old(self).spec_account(request.account_id@);
                &&& final(self).total_staked_balance == old(self).total_staked_balance
                    - old(self).spec_amount_from_shares_down(request.num_shares as int)
                &&& final(self).total_stake_shares
                    == old(self).total_stake_shares - request.num_shares
                &&& final(self).spec_account(request.account_id@).stake_shares
                    == acct.stake_shares - request.num_shares
                &&& final(self).spec_account(request.account_id@).unstaked
                    == acct.unstaked + request.receive_amount
                &&& final(self).spec_account(request.account_id@).unstaked_available_epoch_height
                    == epoch_height + NUM_EPOCHS_TO_UNLOCK
                &&& final(self).spec_account(request.account_id@).stake_principal
                    == (if acct.stake_principal >= request.principal_reduced {
                        acct.stake_principal - request.principal_reduced
                    } else {
                        0
                    })
                &&& (forall|k: Seq<char>| k != request.account_id@
                    ==> final(self).spec_account(k) == old(self).spec_account(k))
                &&& final(self).last_total_balance == old(self).last_total_balance
                &&& final(self).last_epoch_height == old(self).last_epoch_height
                &&& final(self).same_config(*old(self))
            },
    {
        if !burn_succeeded {
            return;
        }
        let mut account = self.internal_get_account(&request.account_id);
        proof {
            lemma_account_shares_bounded(*self, request.account_id@);
            lemma_amount_fit(
                self.total_staked_balance as int,
                self.total_stake_shares as int,
                request.num_shares as int,
            );
        }
        let unstake_amount = match self.staked_amount_from_num_shares_rounded_down(
            request.num_shares,
        ) {
            Ok(v) => v,
            Err(_) => {
                return;
            },
        };
        account.stake_shares = account.stake_shares - request.num_shares;
        account.unstaked = account.unstaked + request.receive_amount;
        account.unstaked_available_epoch_height = epoch_height + NUM_EPOCHS_TO_UNLOCK;
        account.stake_principal = if account.stake_principal >= request.principal_reduced {
            account.stake_principal - request.principal_reduced
        } else {
            0
        };
        self.accounts.save(&request.account_id, account);
        proof {
            lemma_unstake_totals(
                self.total_staked_balance as int,
                self.total_stake_shares as int,
                request.num_shares as int,
            );
        }
        self.total_staked_balance = self.total_staked_balance - unstake_amount;
        self.total_stake_shares = self.total_stake_shares - request.num_shares;
    }

    /// Why a withdrawal of `amount` by the holder of `account` at
    /// `epoch_height` is rejected, or `None` when it goes through.
    pub open spec fn spec_withdraw_error(
        self,
        account: Account,
        amount: int,
        epoch_height: u64,
    ) -> Option<PoolError> {
        if amount <= 0 {
            Some(PoolError::PositiveAmountRequired)
        } else if account.unstaked < amount {
            Some(PoolError::InsufficientUnstakedBalance)
        } else if epoch_height < account.unstaked_available_epoch_height {
            Some(PoolError::UnlockPending)
        } else {
            None
        }
    }

    /// Withdraws from the account's unstaked balance once the unstaking
    /// delay has expired.  Returns the amount the asset-transfer
    /// collaborator must pay out to the account: that payout is
    /// fire-and-forget and outside this core's rollback protocol.
    pub fn internal_withdraw(&mut self, account_id: &String, amount: u128, epoch_height: u64)
        -> (r: Result<u128, PoolError>)
        requires
            old(self).wf(),
            amount <= old(self).spec_account(account_id@).unstaked
                ==> amount <= old(self).last_total_balance,
        ensures
            final(self).wf(),
            final(self).total_staked_balance == old(self).total_staked_balance,
            final(self).total_stake_shares == old(self).total_stake_shares,
            (match old(self).spec_withdraw_error(
                old(self).spec_account(account_id@),
                amount as int,
                epoch_height,
            ) {
                Some(e) => r == Err::<u128, PoolError>(e) && *final(self) == *old(self),
                None => {
                    let acct = old(self).spec_account(account_id@);
                    let updated = Account {
                        unstaked: (acct.unstaked - amount) as u128,
                        ..acct
                    };
                    &&& r == Ok::<u128, PoolError>(amount)
                    &&& final(self).spec_account(account_id@)
                        == (if updated.is_empty() { Account::zeroed() } else { updated })
                    &&& (forall|k: Seq<char>| k != account_id@
                        ==> final(self).spec_account(k) == old(self).spec_account(k))
                    &&& final(self).last_total_balance
                        == old(self).last_total_balance - amount
                    &&& final(self).last_epoch_height == old(self).last_epoch_height
                    &&& final(self).same_config(*old(self))
                },
            }),
    {
        if amount == 0 {
            return Err(PoolError::PositiveAmountRequired);
        }
        let mut account = self.internal_get_account(account_id);
        if account.unstaked < amount {
            return Err(PoolError::InsufficientUnstakedBalance);
        }
        if epoch_height < account.unstaked_available_epoch_height {
            return Err(PoolError::UnlockPending);
        }
        account.unstaked = account.unstaked - amount;
        self.accounts.save(account_id, account);
        self.last_total_balance = self.last_total_balance - amount;
        Ok(amount)
    }
}

/// `post` is `pre` with a deposit of `amount` credited to `id`'s unstaked
/// balance and to the tracked total balance, after the epoch sync at
/// `epoch_height`.
pub open spec fn spec_deposit_applied(
    pre: StakingContract,
    post: StakingContract,
    id: Seq<char>,
    amount: int,
    epoch_height: u64,
) -> bool {
    &&& post.last_epoch_height == epoch_height
    &&& post.last_total_balance == pre.last_total_balance + amount
    &&& post.total_staked_balance == pre.total_staked_balance
    &&& post.total_stake_shares == pre.total_stake_shares
    &&& post.same_config(pre)
    &&& post.spec_account(id).unstaked == pre.spec_account(id).unstaked + amount
    &&& post.spec_account(id).stake_shares == pre.spec_account(id).stake_shares
    &&& post.spec_account(id).stake_principal == pre.spec_account(id).stake_principal
    &&& post.spec_account(id).unstaked_available_epoch_height
        == pre.spec_account(id).unstaked_available_epoch_height
    &&& (forall|k: Seq<char>| k != id ==> post.spec_account(k) == pre.spec_account(k))
}

impl StakingContract {
    /// Sets up a pool with no balance and no issued shares.  The reward
    /// fee fraction must be valid at configuration time.
    pub fn new(
        owner_id: String,
        stake_public_key: Vec<u8>,
        reward_fee_fraction: RewardFeeFraction,
        token_contract: String,
        epoch_height: u64,
    ) -> (r: Result<StakingContract, PoolError>)
        ensures
            !reward_fee_fraction.is_valid()
                ==> r == Err::<StakingContract, PoolError>(PoolError::InvalidRewardFraction),
            reward_fee_fraction.is_valid() ==> (r matches Ok(c)
                && c.wf()
                && c.owner_id@ == owner_id@
                && c.stake_public_key@ == stake_public_key@
                && c.last_epoch_height == epoch_height
                && c.last_total_balance == 0
                && c.total_staked_balance == 0
                && c.total_stake_shares == 0
                && c.reward_fee_fraction == reward_fee_fraction
                && !c.paused
                && c.token_contract@ == token_contract@
                && (forall|k: Seq<char>| !c.accounts.contains_id(k))),
    {
        match reward_fee_fraction.assert_valid() {
            Err(e) => Err(e),
            Ok(_) => Ok(StakingContract {
                owner_id,
                stake_public_key,
                last_epoch_height: epoch_height,
                last_total_balance: 0,
                total_staked_balance: 0,
                total_stake_shares: 0,
                reward_fee_fraction,
                accounts: AccountLedger::new(),
                paused: false,
                token_contract,
            }),
        }
    }

    /// Checks that the caller is the owner of the pool.
    pub fn assert_owner(&self, caller_id: &String) -> (r: Result<(), PoolError>)
        ensures
            r.is_ok() <==> caller_id@ == self.owner_id@,
            caller_id@ != self.owner_id@ ==> r == Err::<(), PoolError>(PoolError::NotOwner),
    {
        if *caller_id == self.owner_id {
            Ok(())
        } else {
            Err(PoolError::NotOwner)
        }
    }

    /// Stakes the given amount from the account's unstaked balance: runs
    /// the epoch sync and produces the "mint shares" request to dispatch.
    /// State moves only when [`StakingContract::on_mint_result`] confirms.
    pub fn stake(&mut self, account_id: &String, amount: u128, epoch_height: u64)
        -> (r: Result<MintRequest, PoolError>)
        requires
            old(self).wf(),
        ensures
            final(self).wf(),
            *final(self) == old(self).spec_ping(epoch_height),
            (match old(self).spec_stake_error(
                old(self).spec_account(account_id@).unstaked as int,
                amount as int,
            ) {
                Some(e) => r == Err::<MintRequest, PoolError>(e),
                None => (r matches Ok(req) && req.account_id@ == account_id@
                    && req.num_shares == old(self).spec_stake_shares(amount as int)
                    && req.charge_amount == old(self).spec_stake_charge(amount as int)
                    && req.wf() && req.charge_amount <= amount),
            }),
            amount == 0 ==> r == Err::<MintRequest, PoolError>(PoolError::ZeroShares),
    {
        self.internal_ping(epoch_height);
        self.internal_stake(account_id, amount)
    }

    /// Stakes the account's entire unstaked balance.
    pub fn stake_all(&self, account_id: &String) -> (r: Result<MintRequest, PoolError>)
        requires
            self.wf(),
        ensures
            (match self.spec_stake_error(
                self.spec_account(account_id@).unstaked as int,
                self.spec_account(account_id@).unstaked as int,
            ) {
                Some(e) => r == Err::<MintRequest, PoolError>(e),
                None => (r matches Ok(req) && req.account_id@ == account_id@
                    && req.num_shares == self.spec_stake_shares(
                        self.spec_account(account_id@).unstaked as int,
                    )
                    && req.charge_amount == self.spec_stake_charge(
                        self.spec_account(account_id@).unstaked as int,
                    )
                    && req.wf()),
            }),
    {
        let account = self.internal_get_account(account_id);
        self.internal_stake(account_id, account.unstaked)
    }

    /// Unstakes the given amount: runs the epoch sync, then the unstake
    /// state machine.
    pub fn unstake(&mut self, account_id: &String, amount: u128, epoch_height: u64)
        -> (r: Result<UnstakeOutcome, PoolError>)
        requires
            old(self).wf(),
            old(self).spec_account(account_id@).unstaked + old(self).total_staked_balance
                <= u128::MAX,
            epoch_height + NUM_EPOCHS_TO_UNLOCK <= u64::MAX,
        ensures
            final(self).wf(),
            share_price_non_decreasing(*old(self), *final(self)),
            final(self).last_epoch_height == epoch_height,
            spec_unstake_transition(
                old(self).spec_ping(epoch_height),
                *final(self),
                account_id@,
                amount as int,
                epoch_height,
                r,
            ),
    {
        self.internal_ping(epoch_height);
        self.inner_unstake(account_id, amount, epoch_height)
    }

    /// Unstakes the value of all shares the account holds, rounded down.
    pub fn unstake_all(&mut self, account_id: &String, epoch_height: u64)
        -> (r: Result<UnstakeOutcome, PoolError>)
        requires
            old(self).wf(),
            old(self).spec_account(account_id@).unstaked + old(self).total_staked_balance
                <= u128::MAX,
            epoch_height + NUM_EPOCHS_TO_UNLOCK <= u64::MAX,
        ensures
            final(self).wf(),
            share_price_non_decreasing(*old(self), *final(self)),
            final(self).last_epoch_height == epoch_height,
            old(self).total_stake_shares == 0
                ==> r == Err::<UnstakeOutcome, PoolError>(PoolError::PoolEmpty)
                    && *final(self) == old(self).spec_ping(epoch_height),
            old(self).total_stake_shares > 0 ==> spec_unstake_transition(
                old(self).spec_ping(epoch_height),
                *final(self),
                account_id@,
                old(self).spec_amount_from_shares_down(
                    old(self).spec_account(account_id@).stake_shares as int,
                ),
                epoch_height,
                r,
            ),
    {
        self.internal_ping(epoch_height);
        let account = self.internal_get_account(account_id);
        proof {
            lemma_account_shares_bounded(*self, account_id@);
            if self.total_stake_shares > 0 {
                lemma_amount_fit(
                    self.total_staked_balance as int,
                    self.total_stake_shares as int,
                    account.stake_shares as int,
                );
            }
        }
        let amount = match self.staked_amount_from_num_shares_rounded_down(account.stake_shares) {
            Ok(v) => v,
            Err(e) => {
                return Err(e);
            },
        };
        self.inner_unstake(account_id, amount, epoch_height)
    }

    /// Unstakes the account's accrued stake reward.
    pub fn unstake_reward(&mut self, account_id: &String, epoch_height: u64)
        -> (r: Result<UnstakeOutcome, PoolError>)
        requires
            old(self).wf(),
            old(self).spec_account(account_id@).unstaked + old(self).total_staked_balance
                <= u128::MAX,
            epoch_height + NUM_EPOCHS_TO_UNLOCK <= u64::MAX,
        ensures
            final(self).wf(),
            share_price_non_decreasing(*old(self), *final(self)),
            final(self).last_epoch_height == epoch_height,
            spec_unstake_transition(
                old(self).spec_ping(epoch_height),
                *final(self),
                account_id@,
                old(self).spec_stake_reward(old(self).spec_account(account_id@)),
                epoch_height,
                r,
            ),
    {
        self.internal_ping(epoch_height);
        let amount = self.internal_get_stake_reward(account_id);
        self.inner_unstake(account_id, amount, epoch_height)
    }

    /// Withdraws the given amount of unstaked balance: runs the epoch
    /// sync, then the delay-enforced withdrawal.  Returns the payout the
    /// asset-transfer collaborator must make.
    pub fn withdraw(&mut self, account_id: &String, amount: u128, epoch_height: u64)
        -> (r: Result<u128, PoolError>)
        requires
            old(self).wf(),
            amount <= old(self).spec_account(account_id@).unstaked
                ==> amount <= old(self).last_total_balance,
        ensures
            final(self).wf(),
            final(self).last_epoch_height == epoch_height,
            final(self).total_staked_balance == old(self).total_staked_balance,
            final(self).total_stake_shares == old(self).total_stake_shares,
            (match old(self).spec_withdraw_error(
                old(self).spec_account(account_id@),
                amount as int,
                epoch_height,
            ) {
                Some(e) => r == Err::<u128, PoolError>(e)
                    && *final(self) == old(self).spec_ping(epoch_height),
                None => {
                    let acct = old(self).spec_account(account_id@);
                    let updated = Account {
                        unstaked: (acct.unstaked - amount) as u128,
                        ..acct
                    };
                    &&& r == Ok::<u128, PoolError>(amount)
                    &&& final(self).spec_account(account_id@)
                        == (if updated.is_empty() { Account::zeroed() } else { updated })
                    &&& (forall|k: Seq<char>| k != account_id@
                        ==> final(self).spec_account(k) == old(self).spec_account(k))
                    &&& final(self).last_total_balance == old(self).last_total_balance - amount
                    &&& final(self).same_config(*old(self))
                },
            }),
    {
        self.internal_ping(epoch_height);
        self.internal_withdraw(account_id, amount, epoch_height)
    }

    /// Withdraws the account's entire unstaked balance.
    pub fn withdraw_all(&mut self, account_id: &String, epoch_height: u64)
        -> (r: Result<u128, PoolError>)
        requires
            old(self).wf(),
            old(self).spec_account(account_id@).unstaked <= old(self).last_total_balance,
        ensures
            final(self).wf(),
            final(self).last_epoch_height == epoch_height,
            final(self).total_staked_balance == old(self).total_staked_balance,
            final(self).total_stake_shares == old(self).total_stake_shares,
            (match old(self).spec_withdraw_error(
                old(self).spec_account(account_id@),
                old(self).spec_account(account_id@).unstaked as int,
                epoch_height,
            ) {
                Some(e) => r == Err::<u128, PoolError>(e)
                    && *final(self) == old(self).spec_ping(epoch_height),
                None => {
                    let acct = old(self).spec_account(account_id@);
                    let updated = Account { unstaked: 0, ..acct };
                    &&& r == Ok::<u128, PoolError>(acct.unstaked)
                    &&& final(self).spec_account(account_id@)
                        == (if updated.is_empty() { Account::zeroed() } else { updated })
                    &&& (forall|k: Seq<char>| k != account_id@
                        ==> final(self).spec_account(k) == old(self).spec_account(k))
                    &&& final(self).last_total_balance == old(self).last_total_balance
                        - acct.unstaked
                    &&& final(self).same_config(*old(self))
                },
            }),
    {
        self.internal_ping(epoch_height);
        let account = self.internal_get_account(account_id);
        self.internal_withdraw(account_id, account.unstaked, epoch_height)
    }
}

/// Removing `n` of `ts` shares and their down-rounded value from the
/// totals keeps the integer share price from decreasing and keeps the
/// price at least one; removing all shares empties the pool exactly.
proof fn lemma_unstake_totals(tb: int, ts: int, n: int)
    requires
        0 < ts <= tb,
        0 < n <= ts,
    ensures
        0 <= tb * n / ts <= tb,
        n == ts ==> tb * n / ts == tb,
        n < ts ==> tb * n / ts < tb,
        n < ts ==> (tb - tb * n / ts) / (ts - n) >= tb / ts,
        n < ts ==> ts - n <= tb - tb * n / ts,
        tb / ts >= 1,
{
    let u = tb * n / ts;
    lemma_amount_fit(tb, ts, n);
    lemma_div_is_ordered(ts, tb, ts);
    lemma_div_by_self(ts);
    if n == ts {
        assert(tb * n == ts * tb) by {
            lemma_mul_is_commutative(tb, ts);
        }
        lemma_div_multiples_vanish(tb, ts);
    } else {
        assert(tb * n < tb * ts) by {
            lemma_mul_left_inequality(tb, n, ts);
            lemma_mul_strict_inequality(n, ts, tb);
            lemma_mul_is_commutative(n, tb);
            lemma_mul_is_commutative(ts, tb);
        }
        lemma_multiply_divide_lt(tb * n, ts, tb);
        // The value removed never exceeds the exact pro-rata value:
        // ts * u <= tb * n, from the division's nonnegative remainder.
        lemma_fundamental_div_mod(tb * n, ts);
        lemma_mod_bound(tb * n, ts);
        assert((tb - u) * ts >= tb * (ts - n)) by (nonlinear_arith)
            requires
                ts * u <= tb * n;
        crate::wide::lemma_floor_div_mono_cross(tb - u, ts - n, tb, ts);
        if tb - u < ts - n {
            lemma_basic_div(tb - u, ts - n);
            assert(false);
        }
    }
}

/// In a well-formed pool, no account holds more shares than are issued.
pub proof fn lemma_account_shares_bounded(s: StakingContract, id: Seq<char>)
    requires
        s.wf(),
    ensures
        s.spec_account(id).stake_shares <= s.total_stake_shares,
{
    if s.accounts.contains_id(id) {
        let i = s.accounts.index_of(id);
        assert(s.accounts.id_at(i, id));
        lemma_shares_sum_entry_bound(s.accounts.entries@, i);
    }
}

impl StakingContract {
    /// The shares a stake of `amount` grants: one per base-asset unit when
    /// the pool is empty, otherwise the down-rounded conversion.
    pub open spec fn spec_stake_shares(self, amount: int) -> int {
        if self.total_staked_balance == 0 {
            amount
        } else {
            self.spec_shares_from_amount_down(amount)
        }
    }

    /// The amount a stake of `amount` charges: the down-rounded value of
    /// the granted shares, so the account is never overcharged.
    pub open spec fn spec_stake_charge(self, amount: int) -> int {
        if self.total_staked_balance == 0 {
            amount
        } else {
            self.spec_amount_from_shares_down(self.spec_stake_shares(amount))
        }
    }

    /// Why a stake of `amount` is rejected against an unstaked balance of
    /// `available`, or `None` when it goes through.
    pub open spec fn spec_stake_error(self, available: int, amount: int) -> Option<PoolError> {
        if self.spec_stake_shares(amount) == 0 {
            Some(PoolError::ZeroShares)
        } else if self.spec_stake_charge(amount) == 0 {
            Some(PoolError::ZeroCharge)
        } else if available < self.spec_stake_charge(amount) {
            Some(PoolError::InsufficientUnstakedBalance)
        } else {
            None
        }
    }

    /// Computes the shares granted and the amount charged for staking
    /// `amount` against an unstaked balance of `available`, performing the
    /// synchronous precondition checks of the stake flow.
    fn stake_quote(&self, available: u128, amount: u128) -> (r: Result<(u128, u128), PoolError>)
        requires
            self.total_stake_shares <= self.total_staked_balance,
        ensures
            (match self.spec_stake_error(available as int, amount as int) {
                Some(e) => r == Err::<(u128, u128), PoolError>(e),
                None => (r matches Ok(q) && q.0 == self.spec_stake_shares(amount as int)
                    && q.1 == self.spec_stake_charge(amount as int)
                    && 0 < q.0 <= q.1 <= amount && q.1 <= available),
            }),
    {
        let num_shares: u128;
        let charge_amount: u128;
        if self.total_staked_balance == 0 {
            if amount == 0 {
                return Err(PoolError::ZeroShares);
            }
            num_shares = amount;
            charge_amount = amount;
        } else {
            proof {
                lemma_shares_fit(
                    self.total_staked_balance as int,
                    self.total_stake_shares as int,
                    amount as int,
                );
            }
            num_shares = match self.num_shares_from_staked_amount_rounded_down(amount) {
                Ok(v) => v,
                Err(e) => {
                    return Err(e);
                },
            };
            if num_shares == 0 {
                return Err(PoolError::ZeroShares);
            }
            proof {
                lemma_charge_bounds(
                    self.total_staked_balance as int,
                    self.total_stake_shares as int,
                    amount as int,
                );
            }
            charge_amount = match self.staked_amount_from_num_shares_rounded_down(num_shares) {
                Ok(v) => v,
                Err(e) => {
                    return Err(e);
                },
            };
        }
        if charge_amount == 0 {
            return Err(PoolError::ZeroCharge);
        }
        if available < charge_amount {
            return Err(PoolError::InsufficientUnstakedBalance);
        }
        Ok((num_shares, charge_amount))
    }

    /// Runs the synchronous half of the stake flow for the given account:
    /// checks the request and produces the "mint shares" request to
    /// dispatch.  The state is not yet mutated — the debit and the pool
    /// totals move only when [`StakingContract::on_mint_result`] confirms
    /// the mint, so a mint failure leaves the state untouched.
    pub fn internal_stake(&self, account_id: &String, amount: u128)
        -> (r: Result<MintRequest, PoolError>)
        requires
            self.wf(),
        ensures
            (match self.spec_stake_error(
                self.spec_account(account_id@).unstaked as int,
                amount as int,
            ) {
                Some(e) => r == Err::<MintRequest, PoolError>(e),
                None => (r matches Ok(req) && req.account_id@ == account_id@
                    && req.num_shares == self.spec_stake_shares(amount as int)
                    && req.charge_amount == self.spec_stake_charge(amount as int)
                    && req.wf() && req.charge_amount <= amount),
            }),
            amount == 0 ==> r == Err::<MintRequest, PoolError>(PoolError::ZeroShares),
    {
        let account = self.internal_get_account(account_id);
        match self.stake_quote(account.unstaked, amount) {
            Ok(q) => Ok(MintRequest {
                account_id: account_id.clone(),
                charge_amount: q.1,
                num_shares: q.0,
            }),
            Err(e) => Err(e),
        }
    }

    /// Credits a plain deposit to the account's unstaked balance and to
    /// the pool's tracked total balance.  Runs the epoch sync first.
    pub fn internal_deposit(&mut self, account_id: &String, amount: u128, epoch_height: u64)
        -> (deposited: u128)
        requires
            old(self).wf(),
            old(self).spec_account(account_id@).unstaked + amount <= u128::MAX,
            old(self).last_total_balance + amount <= u128::MAX,
        ensures
            final(self).wf(),
            deposited == amount,
            spec_deposit_applied(*old(self), *final(self), account_id@, amount as int, epoch_height),
    {
        self.internal_ping(epoch_height);
        let mut account = self.internal_get_account(account_id);
        account.unstaked = account.unstaked + amount;
        self.accounts.save(account_id, account);
        self.last_total_balance = self.last_total_balance + amount;
        amount
    }

    /// Deposits `amount` and immediately stakes it, as one atomic step: if
    /// any stake precondition fails, the deposit is not applied either.
    /// On success the deposit is applied and the "mint shares" request for
    /// the staked amount is returned; the stake itself is confirmed later
    /// by [`StakingContract::on_mint_result`].
    pub fn internal_deposit_and_stake(
        &mut self,
        account_id: &String,
        amount: u128,
        epoch_height: u64,
    ) -> (r: Result<MintRequest, PoolError>)
        requires
            old(self).wf(),
            old(self).spec_account(account_id@).unstaked + amount <= u128::MAX,
            old(self).last_total_balance + amount <= u128::MAX,
        ensures
            final(self).wf(),
            (match old(self).spec_stake_error(
                old(self).spec_account(account_id@).unstaked + amount,
                amount as int,
            ) {
                Some(e) => r == Err::<MintRequest, PoolError>(e)
                    && *final(self) == old(self).spec_ping(epoch_height),
                None => (r matches Ok(req) && req.account_id@ == account_id@
                    && req.num_shares == old(self).spec_stake_shares(amount as int)
                    && req.charge_amount == old(self).spec_stake_charge(amount as int)
                    && req.wf()
                    && spec_deposit_applied(
                        *old(self),
                        *final(self),
                        account_id@,
                        amount as int,
                        epoch_height,
                    )),
            }),
    {
        self.internal_ping(epoch_height);
        let account = self.internal_get_account(account_id);
        let available = account.unstaked + amount;
        match self.stake_quote(available, amount) {
            Err(e) => Err(e),
            Ok(q) => {
                let mut account = account;
                account.unstaked = available;
                self.accounts.save(account_id, account);
                self.last_total_balance = self.last_total_balance + amount;
                Ok(MintRequest {
                    account_id: account_id.clone(),
                    charge_amount: q.1,
                    num_shares: q.0,
                })
            },
        }
    }

    /// Applies the confirmation of a dispatched "mint shares" request.  On
    /// success the charge moves from the account's unstaked balance into
    /// the stake position and the pool totals grow accordingly; on failure
    /// nothing changes and the attempt is abandoned, the funds remaining
    /// unstaked.
    pub fn on_mint_result(&mut self, request: &MintRequest, mint_succeeded: bool)
        requires
            old(self).wf(),
            request.wf(),
            mint_succeeded ==> request.charge_amount
                <= old(self).spec_account(request.account_id@).unstaked,
            mint_succeeded ==> old(self).spec_account(request.account_id@).stake_shares
                + request.num_shares <= u128::MAX,
            mint_succeeded ==> old(self).spec_account(request.account_id@).stake_principal
                + request.charge_amount <= u128::MAX,
            mint_succeeded ==> old(self).total_staked_balance + request.charge_amount
                <= u128::MAX,
            mint_succeeded ==> old(self).total_stake_shares + request.num_shares <= u128::MAX,
        ensures
            final(self).wf(),
            !mint_succeeded ==> *final(self) == *old(self),
            mint_succeeded ==> {
                &&& final(self).total_staked_balance
                    == old(self).total_staked_balance + request.charge_amount
                &&& final(self).total_stake_shares
                    == old(self).total_stake_shares + request.num_shares
                &&& final(self).last_total_balance == old(self).last_total_balance
                &&& final(self).last_epoch_height == old(self).last_epoch_height
                &&& final(self).same_config(*old(self))
                &&& final(self).spec_account(request.account_id@).unstaked
                    == old(self).spec_account(request.account_id@).unstaked
                        - request.charge_amount
                &&& final(self).spec_account(request.account_id@).stake_shares
                    == old(self).spec_account(request.account_id@).stake_shares
                        + request.num_shares
                &&& final(self).spec_account(request.account_id@).stake_principal
                    == old(self).spec_account(request.account_id@).stake_principal
                        + request.charge_amount
                &&& final(self).spec_account(request.account_id@).unstaked_available_epoch_height
                    == old(self).spec_account(request.account_id@).unstaked_available_epoch_height
                &&& (forall|k: Seq<char>| k != request.account_id@
                    ==> final(self).spec_account(k) == old(self).spec_account(k))
            },
    {
        if !mint_succeeded {
            return;
        }
        let mut account = self.internal_get_account(&request.account_id);
        account.unstaked = account.unstaked - request.charge_amount;
        account.stake_shares = account.stake_shares + request.num_shares;
        account.stake_principal = account.stake_principal + request.charge_amount;
        self.accounts.save(&request.account_id, account);
        self.total_staked_balance = self.total_staked_balance + request.charge_amount;
        self.total_stake_shares = self.total_stake_shares + request.num_shares;
    }
}

/// For a stake of `amount` at a share price of at least one: the charge
/// recomputed from the granted shares never exceeds the amount, and covers
/// at least one unit per share.
proof fn lemma_charge_bounds(tb: int, ts: int, a: int)
    requires
        0 < ts <= tb,
        0 <= a,
    ensures
        tb * (ts * a / tb) / ts <= a,
        ts * a / tb <= tb * (ts * a / tb) / ts,
        0 <= ts * a / tb,
{
    let n = ts * a / tb;
    lemma_mul_nonnegative(ts, a);
    lemma_div_pos_is_pos(ts * a, tb);
    // tb * n <= ts * a, from the division's remainder being nonnegative
    lemma_fundamental_div_mod(ts * a, tb);
    lemma_mod_bound(ts * a, tb);
    assert(tb * n <= ts * a);
    assert(ts * a == a * ts) by {
        lemma_mul_is_commutative(ts, a);
    }
    lemma_div_is_ordered(tb * n, ts * a, ts);
    lemma_div_multiples_vanish(a, ts);
    // n <= tb * n / ts, since ts * n <= tb * n
    lemma_mul_inequality(ts, tb, n);
    lemma_div_is_ordered(ts * n, tb * n, ts);
    lemma_div_multiples_vanish(n, ts);
}

/// Share-from-amount conversions stay below the amount when the share
/// price is at least one.
proof fn lemma_shares_fit(tb: int, ts: int, a: int)
    requires
        0 < tb,
        0 <= ts <= tb,
        0 <= a,
    ensures
        ts * a / tb <= a,
        (ts * a + tb - 1) / tb <= a,
        0 <= ts * a / tb,
{
    lemma_mul_inequality(ts, tb, a);
    lemma_mul_nonnegative(ts, a);
    lemma_div_is_ordered(ts * a, tb * a, tb);
    lemma_div_multiples_vanish(a, tb);
    lemma_div_is_ordered(ts * a + tb - 1, tb * a + tb - 1, tb);
    assert(tb * a + tb - 1 == a * tb + (tb - 1)) by {
        lemma_mul_is_commutative(tb, a);
    }
    lemma_fundamental_div_mod_converse_div(tb * a + tb - 1, tb, a, tb - 1);
    lemma_div_pos_is_pos(ts * a, tb);
}

/// Amount-from-share conversions stay below the staked balance when asked
/// about no more shares than are issued.
proof fn lemma_amount_fit(tb: int, ts: int, n: int)
    requires
        0 < ts,
        0 <= n <= ts,
        0 <= tb,
    ensures
        tb * n / ts <= tb,
        (tb * n + ts - 1) / ts <= tb,
        0 <= tb * n / ts,
{
    if tb == 0 {
        lemma_basic_div(0, ts);
        lemma_basic_div(ts - 1, ts);
    } else {
        lemma_mul_left_inequality(tb, n, ts);
        lemma_mul_nonnegative(tb, n);
        lemma_div_is_ordered(tb * n, tb * ts, ts);
        assert(tb * ts == ts * tb) by {
            lemma_mul_is_commutative(tb, ts);
        }
        lemma_div_multiples_vanish(tb, ts);
        lemma_div_is_ordered(tb * n + ts - 1, tb * ts + ts - 1, ts);
        assert(tb * ts + ts - 1 == tb * ts + (ts - 1));
        lemma_fundamental_div_mod_converse_div(tb * ts + ts - 1, ts, tb, ts - 1);
        lemma_div_pos_is_pos(tb * n, ts);
    }
}

} // verus!
