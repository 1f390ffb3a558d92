//! Deposits, the stake dispatch/confirm protocol, and the share price
//! across sequences of operations.

use stake_pool::PoolError;
use stake_pool::RewardFeeFraction;
use stake_pool::StakingContract;
use stake_pool::UserAction;

fn new_pool() -> StakingContract {
    StakingContract::new(
        "owner".to_string(),
        vec![0u8; 33],
        RewardFeeFraction { numerator: 1, denominator: 10 },
        "token".to_string(),
        7,
    )
    .unwrap()
}

fn floor_price(pool: &StakingContract) -> u128 {
    assert!(pool.total_stake_shares > 0);
    pool.total_staked_balance / pool.total_stake_shares
}

#[test]
fn new_pool_starts_empty() {
    let pool = new_pool();
    assert_eq!(pool.total_staked_balance, 0);
    assert_eq!(pool.total_stake_shares, 0);
    assert_eq!(pool.last_total_balance, 0);
    assert_eq!(pool.last_epoch_height, 7);
    assert!(!pool.paused);
    assert_eq!(pool.owner_id, "owner".to_string());
}

#[test]
fn new_pool_rejects_invalid_fee() {
    let r = StakingContract::new(
        "owner".to_string(),
        vec![],
        RewardFeeFraction { numerator: 2, denominator: 1 },
        "token".to_string(),
        0,
    );
    assert!(matches!(r, Err(PoolError::InvalidRewardFraction)));
}

#[test]
fn owner_check() {
    let pool = new_pool();
    assert_eq!(pool.assert_owner(&"owner".to_string()), Ok(()));
    assert_eq!(pool.assert_owner(&"mallory".to_string()), Err(PoolError::NotOwner));
}

#[test]
fn ping_is_idempotent_within_an_epoch() {
    let mut pool = new_pool();
    assert!(pool.internal_ping(8));
    let epoch = pool.last_epoch_height;
    let balance = pool.last_total_balance;
    // a second sync in the same epoch changes nothing and reports so
    assert!(!pool.internal_ping(8));
    assert_eq!(pool.last_epoch_height, epoch);
    assert_eq!(pool.last_total_balance, balance);
    assert!(!pool.internal_ping(8));
    assert_eq!(pool.last_epoch_height, 8);
}

#[test]
fn deposit_credits_account_and_total() {
    let mut pool = new_pool();
    let alice = "alice".to_string();
    assert_eq!(pool.internal_deposit(&alice, 1000, 8), 1000);
    assert_eq!(pool.internal_get_account(&alice).unstaked, 1000);
    assert_eq!(pool.last_total_balance, 1000);
    assert_eq!(pool.last_epoch_height, 8);
    // a second deposit accumulates
    pool.internal_deposit(&alice, 50, 8);
    assert_eq!(pool.internal_get_account(&alice).unstaked, 1050);
    assert_eq!(pool.last_total_balance, 1050);
}

#[test]
fn stake_of_zero_is_rejected_as_zero_shares() {
    let mut pool = new_pool();
    let alice = "alice".to_string();
    pool.internal_deposit(&alice, 1000, 8);
    assert!(matches!(
        pool.stake(&alice, 0, 8),
        Err(PoolError::ZeroShares)
    ));
}

#[test]
fn stake_needs_enough_unstaked_balance() {
    let mut pool = new_pool();
    let alice = "alice".to_string();
    pool.internal_deposit(&alice, 100, 8);
    assert!(matches!(
        pool.stake(&alice, 101, 8),
        Err(PoolError::InsufficientUnstakedBalance)
    ));
}

#[test]
fn first_stake_is_one_to_one() {
    // an account deposits 1000 and stakes 1000 while the pool is empty
    let mut pool = new_pool();
    let alice = "alice".to_string();
    pool.internal_deposit(&alice, 1000, 8);
    let request = pool.stake(&alice, 1000, 8).unwrap();
    assert_eq!(request.account_id, alice);
    assert_eq!(request.num_shares, 1000);
    assert_eq!(request.charge_amount, 1000);
    // nothing moves until the mint is confirmed
    assert_eq!(pool.total_staked_balance, 0);
    assert_eq!(pool.internal_get_account(&alice).unstaked, 1000);
    pool.on_mint_result(&request, true);
    assert_eq!(pool.total_staked_balance, 1000);
    assert_eq!(pool.total_stake_shares, 1000);
    let account = pool.internal_get_account(&alice);
    assert_eq!(account.unstaked, 0);
    assert_eq!(account.stake_shares, 1000);
    assert_eq!(account.stake_principal, 1000);
}

#[test]
fn second_stake_at_par_gets_par_shares() {
    // after the one-to-one bootstrap, a second account stakes 500 at the
    // same price and the totals become 1500 / 1500
    let mut pool = new_pool();
    let alice = "alice".to_string();
    let bob = "bob".to_string();
    pool.internal_deposit(&alice, 1000, 8);
    let request = pool.stake(&alice, 1000, 8).unwrap();
    pool.on_mint_result(&request, true);
    pool.internal_deposit(&bob, 500, 8);
    let request = pool.stake(&bob, 500, 8).unwrap();
    assert_eq!(request.num_shares, 500);
    assert_eq!(request.charge_amount, 500);
    pool.on_mint_result(&request, true);
    assert_eq!(pool.total_staked_balance, 1500);
    assert_eq!(pool.total_stake_shares, 1500);
    assert_eq!(pool.internal_get_account(&bob).stake_shares, 500);
}

#[test]
fn failed_mint_leaves_state_untouched() {
    let mut pool = new_pool();
    let alice = "alice".to_string();
    pool.internal_deposit(&alice, 1000, 8);
    let request = pool.stake(&alice, 600, 8).unwrap();
    pool.on_mint_result(&request, false);
    assert_eq!(pool.total_staked_balance, 0);
    assert_eq!(pool.total_stake_shares, 0);
    let account = pool.internal_get_account(&alice);
    assert_eq!(account.unstaked, 1000);
    assert_eq!(account.stake_shares, 0);
}

#[test]
fn stake_all_quotes_the_whole_unstaked_balance() {
    let mut pool = new_pool();
    let alice = "alice".to_string();
    pool.internal_deposit(&alice, 750, 8);
    let request = pool.stake_all(&alice).unwrap();
    assert_eq!(request.charge_amount, 750);
    assert_eq!(request.num_shares, 750);
}

#[test]
fn deposit_and_stake_is_atomic() {
    let mut pool = new_pool();
    let alice = "alice".to_string();
    // zero amount: rejected, and the deposit is not applied either
    assert!(matches!(
        pool.internal_deposit_and_stake(&alice, 0, 8),
        Err(PoolError::ZeroShares)
    ));
    assert_eq!(pool.last_total_balance, 0);
    assert_eq!(pool.internal_get_account(&alice).unstaked, 0);
    // positive amount: deposited and quoted in one step
    let request = pool.internal_deposit_and_stake(&alice, 400, 8).unwrap();
    assert_eq!(request.num_shares, 400);
    assert_eq!(pool.last_total_balance, 400);
    assert_eq!(pool.internal_get_account(&alice).unstaked, 400);
    pool.on_mint_result(&request, true);
    assert_eq!(pool.internal_get_account(&alice).stake_shares, 400);
}

#[test]
fn token_transfer_without_message_is_a_deposit() {
    let mut pool = new_pool();
    let alice = "alice".to_string();
    let r = pool.ft_on_transfer(&alice, 250, None, 8).unwrap();
    assert!(r.is_none());
    assert_eq!(pool.internal_get_account(&alice).unstaked, 250);
    assert_eq!(pool.last_total_balance, 250);
}

#[test]
fn token_transfer_with_stake_action_stakes() {
    let mut pool = new_pool();
    let alice = "alice".to_string();
    let r = pool
        .ft_on_transfer(&alice, 250, Some(UserAction::DepositAndStake), 8)
        .unwrap();
    let request = r.unwrap();
    assert_eq!(request.num_shares, 250);
    assert_eq!(request.charge_amount, 250);
    assert_eq!(pool.internal_get_account(&alice).unstaked, 250);
}

#[test]
fn share_price_never_decreases_across_a_sequence() {
    // a mixed sequence of stakes at a non-trivial price: after every
    // confirmed operation the integer share price is at least what it was
    let mut pool = new_pool();
    let alice = "alice".to_string();
    let bob = "bob".to_string();
    pool.internal_deposit(&alice, 10_000, 8);
    pool.internal_deposit(&bob, 10_000, 8);
    let request = pool.stake(&alice, 997, 8).unwrap();
    pool.on_mint_result(&request, true);
    // rewards arrive: the pool's staked balance grows without new shares
    pool.total_staked_balance += 129;
    let mut last_price = floor_price(&pool);
    for amount in [3u128, 701, 41, 997, 5] {
        let request = pool.stake(&bob, amount, 8).unwrap();
        pool.on_mint_result(&request, true);
        let price = floor_price(&pool);
        assert!(price >= last_price);
        last_price = price;
    }
    // redemptions, confirmed burns included, keep the price up as well
    for amount in [11u128, 400, 2, 333] {
        match pool.unstake(&bob, amount, 8).unwrap() {
            stake_pool::UnstakeOutcome::BurnRequested(burn) => {
                pool.on_burn_result(&burn, true, 8);
            }
            stake_pool::UnstakeOutcome::Completed => {}
        }
        let price = floor_price(&pool);
        assert!(price >= last_price);
        last_price = price;
    }
}

#[test]
fn immediate_round_trip_never_pays_out_more_than_staked() {
    // stake at an uneven price, then immediately unstake everything the
    // granted shares are worth: the payout never exceeds the stake
    let mut pool = new_pool();
    let alice = "alice".to_string();
    let bob = "bob".to_string();
    pool.internal_deposit(&alice, 10_000, 8);
    pool.internal_deposit(&bob, 10_000, 8);
    let request = pool.stake(&alice, 997, 8).unwrap();
    pool.on_mint_result(&request, true);
    pool.total_staked_balance += 129; // accrued reward, price now uneven
    for amount in [100u128, 997, 3, 1234] {
        let request = pool.stake(&bob, amount, 8).unwrap();
        pool.on_mint_result(&request, true);
        let value_up = pool
            .staked_amount_from_num_shares_rounded_up(request.num_shares)
            .unwrap();
        assert!(value_up <= amount);
    }
}
