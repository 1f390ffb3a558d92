//! The unstake state machine (fast path, slow path, rollback) and the
//! delay-enforced withdrawal.

use stake_pool::BurnRequest;
use stake_pool::PoolError;
use stake_pool::RewardFeeFraction;
use stake_pool::StakingContract;
use stake_pool::UnstakeOutcome;
use stake_pool::NUM_EPOCHS_TO_UNLOCK;

fn new_pool() -> StakingContract {
    StakingContract::new(
        "owner".to_string(),
        vec![0u8; 33],
        RewardFeeFraction { numerator: 1, denominator: 10 },
        "token".to_string(),
        7,
    )
    .unwrap()
}

/// A pool where `alice` has 1000 confirmed shares with principal 1000, and
/// the staked balance then grew by `reward` without new shares.
fn pool_with_stake(reward: u128) -> (StakingContract, String) {
    let mut pool = new_pool();
    let alice = "alice".to_string();
    pool.internal_deposit(&alice, 1000, 8);
    let request = pool.stake(&alice, 1000, 8).unwrap();
    pool.on_mint_result(&request, true);
    pool.total_staked_balance += reward;
    (pool, alice)
}

#[test]
fn unstake_on_an_empty_pool_fails() {
    let mut pool = new_pool();
    let alice = "alice".to_string();
    assert!(matches!(
        pool.unstake(&alice, 10, 8),
        Err(PoolError::PoolEmpty)
    ));
}

#[test]
fn unstake_needs_enough_shares() {
    let (mut pool, alice) = pool_with_stake(0);
    assert!(matches!(
        pool.unstake(&alice, 1001, 8),
        Err(PoolError::InsufficientShares)
    ));
    let bob = "bob".to_string();
    assert!(matches!(
        pool.unstake(&bob, 1, 8),
        Err(PoolError::InsufficientShares)
    ));
}

#[test]
fn reward_computation() {
    let (pool, alice) = pool_with_stake(200);
    // value of 1000 shares at 1200/1000, rounded down, less principal 1000
    assert_eq!(pool.internal_get_stake_reward(&alice), 200);
    let (pool2, alice2) = pool_with_stake(0);
    assert_eq!(pool2.internal_get_stake_reward(&alice2), 0);
    let bob = "bob".to_string();
    assert_eq!(pool.internal_get_stake_reward(&bob), 0);
}

#[test]
fn unstake_covered_by_reward_takes_the_fast_path() {
    // reward 200 covers an unstake of 150: no burn is dispatched and the
    // unlock delay starts at the current epoch
    let (mut pool, alice) = pool_with_stake(200);
    let r = pool.unstake(&alice, 150, 9).unwrap();
    assert!(matches!(r, UnstakeOutcome::Completed));
    let account = pool.internal_get_account(&alice);
    // 150 tokens cost ceil(1000 * 150 / 1200) == 125 shares, worth 150 up
    assert_eq!(account.stake_shares, 1000 - 125);
    assert_eq!(account.unstaked, 150);
    assert_eq!(account.stake_principal, 1000);
    assert_eq!(
        account.unstaked_available_epoch_height,
        9 + NUM_EPOCHS_TO_UNLOCK
    );
    // the pool gives up the down-rounded value of the shares
    assert_eq!(pool.total_staked_balance, 1200 - 150);
    assert_eq!(pool.total_stake_shares, 1000 - 125);
}

#[test]
fn unstake_beyond_reward_dispatches_a_burn() {
    // with no reward, unstaking 150 must shrink the principal: a burn of
    // 150 is dispatched and nothing moves yet
    let (mut pool, alice) = pool_with_stake(0);
    let r = pool.unstake(&alice, 150, 9).unwrap();
    let burn = match r {
        UnstakeOutcome::BurnRequested(burn) => burn,
        UnstakeOutcome::Completed => panic!("expected a burn dispatch"),
    };
    assert_eq!(burn.account_id, alice);
    assert_eq!(burn.num_shares, 150);
    assert_eq!(burn.receive_amount, 150);
    assert_eq!(burn.principal_reduced, 150);
    assert_eq!(pool.total_staked_balance, 1000);
    assert_eq!(pool.total_stake_shares, 1000);
    assert_eq!(pool.internal_get_account(&alice).stake_shares, 1000);
}

#[test]
fn failed_burn_rolls_back_to_the_previous_state() {
    let (mut pool, alice) = pool_with_stake(0);
    let r = pool.unstake(&alice, 150, 9).unwrap();
    let burn = match r {
        UnstakeOutcome::BurnRequested(burn) => burn,
        UnstakeOutcome::Completed => panic!("expected a burn dispatch"),
    };
    pool.on_burn_result(&burn, false, 9);
    let account = pool.internal_get_account(&alice);
    assert_eq!(account.stake_shares, 1000);
    assert_eq!(account.unstaked, 0);
    assert_eq!(account.stake_principal, 1000);
    assert_eq!(pool.total_staked_balance, 1000);
    assert_eq!(pool.total_stake_shares, 1000);
}

#[test]
fn confirmed_burn_applies_the_decrements() {
    let (mut pool, alice) = pool_with_stake(0);
    let r = pool.unstake(&alice, 150, 9).unwrap();
    let burn = match r {
        UnstakeOutcome::BurnRequested(burn) => burn,
        UnstakeOutcome::Completed => panic!("expected a burn dispatch"),
    };
    pool.on_burn_result(&burn, true, 9);
    let account = pool.internal_get_account(&alice);
    assert_eq!(account.stake_shares, 850);
    assert_eq!(account.unstaked, 150);
    assert_eq!(account.stake_principal, 850);
    assert_eq!(
        account.unstaked_available_epoch_height,
        9 + NUM_EPOCHS_TO_UNLOCK
    );
    assert_eq!(pool.total_staked_balance, 850);
    assert_eq!(pool.total_stake_shares, 850);
}

#[test]
fn burn_principal_reduction_saturates_at_zero() {
    let (mut pool, alice) = pool_with_stake(0);
    // a confirmation whose reduction exceeds the recorded principal
    let burn = BurnRequest {
        account_id: alice.clone(),
        num_shares: 1000,
        receive_amount: 1000,
        principal_reduced: 1500,
    };
    pool.on_burn_result(&burn, true, 9);
    let account = pool.internal_get_account(&alice);
    assert_eq!(account.stake_shares, 0);
    assert_eq!(account.unstaked, 1000);
    assert_eq!(account.stake_principal, 0);
    assert_eq!(pool.total_staked_balance, 0);
    assert_eq!(pool.total_stake_shares, 0);
}

#[test]
fn unstake_all_redeems_the_whole_position() {
    let (mut pool, alice) = pool_with_stake(0);
    let r = pool.unstake_all(&alice, 9).unwrap();
    let burn = match r {
        UnstakeOutcome::BurnRequested(burn) => burn,
        UnstakeOutcome::Completed => panic!("expected a burn dispatch"),
    };
    assert_eq!(burn.num_shares, 1000);
    assert_eq!(burn.receive_amount, 1000);
    pool.on_burn_result(&burn, true, 9);
    assert_eq!(pool.total_staked_balance, 0);
    assert_eq!(pool.total_stake_shares, 0);
    assert_eq!(pool.internal_get_account(&alice).unstaked, 1000);
}

#[test]
fn unstake_reward_redeems_only_the_reward() {
    // reward 250 at price 1250/1000: 250 tokens cost exactly 200 shares,
    // worth exactly 250, so the reward covers the redemption: fast path
    let (mut pool, alice) = pool_with_stake(250);
    let r = pool.unstake_reward(&alice, 9).unwrap();
    assert!(matches!(r, UnstakeOutcome::Completed));
    let account = pool.internal_get_account(&alice);
    assert_eq!(account.unstaked, 250);
    assert_eq!(account.stake_shares, 800);
    assert_eq!(account.stake_principal, 1000);
    assert_eq!(pool.total_staked_balance, 1000);
    assert_eq!(pool.total_stake_shares, 800);
}

#[test]
fn unstake_reward_overshoot_by_rounding_goes_to_the_slow_path() {
    // reward 300 at price 1300/1000: 300 tokens cost 231 shares, worth
    // 301 rounded up, one more than the reward: the principal must shrink
    // by that one unit, so a burn is dispatched
    let (mut pool, alice) = pool_with_stake(300);
    let r = pool.unstake_reward(&alice, 9).unwrap();
    let burn = match r {
        UnstakeOutcome::BurnRequested(burn) => burn,
        UnstakeOutcome::Completed => panic!("expected a burn dispatch"),
    };
    assert_eq!(burn.num_shares, 231);
    assert_eq!(burn.receive_amount, 301);
    assert_eq!(burn.principal_reduced, 1);
}

#[test]
fn unstake_of_zero_is_rejected() {
    let (mut pool, alice) = pool_with_stake(0);
    assert!(matches!(
        pool.unstake(&alice, 0, 9),
        Err(PoolError::ZeroShares)
    ));
}

#[test]
fn withdraw_enforces_the_unstaking_delay() {
    // the unstaked balance becomes withdrawable only at the recorded epoch
    let (mut pool, alice) = pool_with_stake(200);
    pool.unstake(&alice, 150, 9).unwrap();
    let unlock = 9 + NUM_EPOCHS_TO_UNLOCK;
    assert!(matches!(
        pool.withdraw(&alice, 150, unlock - 1),
        Err(PoolError::UnlockPending)
    ));
    // once the epoch is reached the withdrawal succeeds and zeroes the
    // balance; the payout to transfer is handed back
    assert_eq!(pool.withdraw(&alice, 150, unlock), Ok(150));
    assert_eq!(pool.internal_get_account(&alice).unstaked, 0);
}

#[test]
fn withdraw_checks_amount_and_balance() {
    let (mut pool, alice) = pool_with_stake(200);
    pool.unstake(&alice, 150, 9).unwrap();
    assert!(matches!(
        pool.withdraw(&alice, 0, 20),
        Err(PoolError::PositiveAmountRequired)
    ));
    assert!(matches!(
        pool.withdraw(&alice, 151, 20),
        Err(PoolError::InsufficientUnstakedBalance)
    ));
}

#[test]
fn withdraw_all_takes_everything_available() {
    let mut pool = new_pool();
    let alice = "alice".to_string();
    pool.internal_deposit(&alice, 420, 8);
    // deposits are withdrawable immediately: the account's unlock epoch is 0
    assert_eq!(pool.withdraw_all(&alice, 8), Ok(420));
    assert_eq!(pool.internal_get_account(&alice).unstaked, 0);
    assert_eq!(pool.last_total_balance, 0);
    // nothing left: withdrawing all of zero is rejected as non-positive
    assert!(matches!(
        pool.withdraw_all(&alice, 8),
        Err(PoolError::PositiveAmountRequired)
    ));
}

#[test]
fn drained_accounts_are_removed_from_the_ledger() {
    let mut pool = new_pool();
    let alice = "alice".to_string();
    pool.internal_deposit(&alice, 5, 8);
    assert_eq!(pool.accounts.entries.len(), 1);
    pool.withdraw_all(&alice, 8).unwrap();
    assert_eq!(pool.accounts.entries.len(), 0);
}
