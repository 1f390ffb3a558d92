//! The wide multiply-divide primitives, the four conversion functions,
//! and the reward fee fraction, on exact values.

use stake_pool::mul_div_ceil;
use stake_pool::mul_div_floor;
use stake_pool::PoolError;
use stake_pool::RewardFeeFraction;
use stake_pool::StakingContract;

fn fee(numerator: u32, denominator: u32) -> RewardFeeFraction {
    RewardFeeFraction { numerator, denominator }
}

fn pool_with_totals(total_staked_balance: u128, total_stake_shares: u128) -> StakingContract {
    let mut pool = StakingContract::new(
        "owner".to_string(),
        vec![1u8, 2, 3],
        fee(0, 1),
        "token".to_string(),
        0,
    )
    .unwrap();
    pool.total_staked_balance = total_staked_balance;
    pool.total_stake_shares = total_stake_shares;
    pool
}

#[test]
fn mul_div_floor_small_values() {
    assert_eq!(mul_div_floor(7, 9, 4), 15); // 63 / 4
    assert_eq!(mul_div_floor(0, 123, 7), 0);
    assert_eq!(mul_div_floor(5, 5, 25), 1);
    assert_eq!(mul_div_floor(5, 5, 26), 0);
}

#[test]
fn mul_div_ceil_small_values() {
    assert_eq!(mul_div_ceil(7, 9, 4), 16); // ceil(63 / 4)
    assert_eq!(mul_div_ceil(0, 123, 7), 0);
    assert_eq!(mul_div_ceil(8, 8, 4), 16); // exact division: no rounding
    assert_eq!(mul_div_ceil(5, 5, 26), 1);
}

#[test]
fn mul_div_handles_products_beyond_128_bits() {
    // a * b == 2^170 * 3, far beyond u128, divided back down.
    let a: u128 = 1u128 << 100;
    let b: u128 = 3u128 << 70;
    let c: u128 = 1u128 << 60;
    assert_eq!(mul_div_floor(a, b, c), 3u128 << 110);
    assert_eq!(mul_div_ceil(a, b, c), 3u128 << 110);
    // The largest possible quotient comes back exactly.
    assert_eq!(mul_div_floor(u128::MAX, u128::MAX, u128::MAX), u128::MAX);
    assert_eq!(mul_div_ceil(u128::MAX, u128::MAX, u128::MAX), u128::MAX);
    // A huge quotient, exact and inexact.
    assert_eq!(mul_div_floor(u128::MAX, 10, 30), u128::MAX / 3);
    assert_eq!(mul_div_ceil(u128::MAX, 10, 30), u128::MAX / 3);
    assert_eq!(mul_div_floor(u128::MAX, 10, 40), u128::MAX / 4);
    assert_eq!(mul_div_ceil(u128::MAX, 10, 40), u128::MAX / 4 + 1);
}

#[test]
fn conversions_on_an_empty_pool_fail() {
    let pool = pool_with_totals(0, 0);
    assert_eq!(
        pool.num_shares_from_staked_amount_rounded_down(10),
        Err(PoolError::PoolEmpty)
    );
    assert_eq!(
        pool.num_shares_from_staked_amount_rounded_up(10),
        Err(PoolError::PoolEmpty)
    );
    assert_eq!(
        pool.staked_amount_from_num_shares_rounded_down(10),
        Err(PoolError::PoolEmpty)
    );
    assert_eq!(
        pool.staked_amount_from_num_shares_rounded_up(10),
        Err(PoolError::PoolEmpty)
    );
}

#[test]
fn zero_amount_converts_to_zero_shares() {
    let pool = pool_with_totals(1000, 800);
    assert_eq!(pool.num_shares_from_staked_amount_rounded_down(0), Ok(0));
    assert_eq!(pool.num_shares_from_staked_amount_rounded_up(0), Ok(0));
}

#[test]
fn conversions_round_in_the_documented_directions() {
    // price 1250/1000: 100 tokens are worth 80 shares exactly.
    let pool = pool_with_totals(1250, 1000);
    assert_eq!(pool.num_shares_from_staked_amount_rounded_down(100), Ok(80));
    assert_eq!(pool.num_shares_from_staked_amount_rounded_up(100), Ok(80));
    // 99 tokens are worth 79.2 shares.
    assert_eq!(pool.num_shares_from_staked_amount_rounded_down(99), Ok(79));
    assert_eq!(pool.num_shares_from_staked_amount_rounded_up(99), Ok(80));
    // 79 shares are worth 98.75 tokens.
    assert_eq!(pool.staked_amount_from_num_shares_rounded_down(79), Ok(98));
    assert_eq!(pool.staked_amount_from_num_shares_rounded_up(79), Ok(99));
}

#[test]
fn fraction_validity_is_checked() {
    assert_eq!(fee(1, 0).assert_valid(), Err(PoolError::InvalidRewardFraction));
    assert_eq!(fee(3, 2).assert_valid(), Err(PoolError::InvalidRewardFraction));
    assert_eq!(fee(0, 1).assert_valid(), Ok(()));
    assert_eq!(fee(2, 2).assert_valid(), Ok(()));
}

#[test]
fn fraction_multiply_rounds_down() {
    assert_eq!(fee(1, 3).multiply(100), 33);
    assert_eq!(fee(0, 7).multiply(1_000_000), 0);
    assert_eq!(fee(7, 7).multiply(41), 41);
    // no overflow even when the intermediate product exceeds u128
    assert_eq!(fee(3, 4).multiply(u128::MAX), u128::MAX / 4 * 3 + 2);
}
