//! Pool-level laws: properties that tie several operations together.
//!
//! The single-operation guarantees (exact results, errors, and the
//! non-decrease of the share price on the unstake paths) are stated on the
//! operations themselves; this module proves the cross-operation laws: the
//! stake/confirm composition keeps the price non-decreasing, an immediate
//! round trip cannot create value, price non-decrease composes across
//! sequences, and the epoch sync is idempotent.

use vstd::prelude::*;
use vstd::arithmetic::div_mod::*;
use vstd::arithmetic::mul::*;

use crate::pool::{share_price_non_decreasing, StakingContract};

verus! {

/// Calling the epoch-sync step twice within the same epoch produces the
/// state a single call produces.
pub proof fn lemma_ping_idempotent(s: StakingContract, epoch_height: u64)
    ensures
        s.spec_ping(epoch_height).spec_ping(epoch_height) == s.spec_ping(epoch_height),
{
}

/// Non-decrease of the integer share price composes across consecutive
/// operations, as long as shares remain issued in the intermediate state.
/// (When the pool is fully redeemed in between, it restarts at a one-to-one
/// price and the comparison with the history before the restart is void.)
pub proof fn lemma_price_non_decreasing_chain(
    a: StakingContract,
    b: StakingContract,
    c: StakingContract,
)
    requires
        share_price_non_decreasing(a, b),
        share_price_non_decreasing(b, c),
        b.total_stake_shares > 0,
    ensures
        share_price_non_decreasing(a, c),
{
}

/// Dispatching a stake and confirming its mint, with nothing in between,
/// never decreases the integer share price: the charge is the down-rounded
/// value of the granted shares, which still covers at least the current
/// integer price for each of them.
pub proof fn lemma_stake_confirm_preserves_price(
    pre: StakingContract,
    post: StakingContract,
    amount: int,
)
    requires
        pre.wf(),
        0 <= amount,
        pre.spec_stake_shares(amount) > 0,
        post.total_staked_balance == pre.total_staked_balance + pre.spec_stake_charge(amount),
        post.total_stake_shares == pre.total_stake_shares + pre.spec_stake_shares(amount),
    ensures
        share_price_non_decreasing(pre, post),
{
    if pre.total_stake_shares > 0 {
        let tb = pre.total_staked_balance as int;
        let ts = pre.total_stake_shares as int;
        let n = pre.spec_stake_shares(amount);
        let c = pre.spec_stake_charge(amount);
        let p = tb / ts;
        lemma_fundamental_div_mod(tb, ts);
        lemma_mod_bound(tb, ts);
        assert(ts * p <= tb);
        lemma_mul_nonnegative(ts, amount);
        lemma_div_pos_is_pos(ts * amount, tb);
        // The charge covers the integer price for each granted share:
        // c == floor(tb * n / ts) >= p * n.
        assert((p * n) * ts <= tb * n) by (nonlinear_arith)
            requires
                ts * p <= tb,
                0 <= n;
        lemma_div_is_ordered((p * n) * ts, tb * n, ts);
        assert((p * n) * ts == ts * (p * n)) by {
            lemma_mul_is_commutative(p * n, ts);
        }
        lemma_div_multiples_vanish(p * n, ts);
        assert(c >= p * n);
        // So the new balance covers the integer price for every share.
        assert(tb + c >= p * (ts + n)) by (nonlinear_arith)
            requires
                ts * p <= tb,
                c >= p * n;
        lemma_div_pos_is_pos(tb, ts);
        lemma_mul_nonnegative(p, ts + n);
        lemma_div_is_ordered(p * (ts + n), tb + c, ts + n);
        assert(p * (ts + n) == (ts + n) * p) by {
            lemma_mul_is_commutative(p, ts + n);
        }
        lemma_div_multiples_vanish(p, ts + n);
        assert((tb + c) / (ts + n) >= p);
    }
}

/// Round trip: staking `amount` and then immediately redeeming the granted
/// shares — even with the redemption rounded up — never yields more than
/// `amount`.  Rounding cannot create value.
pub proof fn lemma_stake_round_trip(pre: StakingContract, post: StakingContract, amount: int)
    requires
        pre.wf(),
        0 <= amount,
        pre.spec_stake_shares(amount) > 0,
        post.total_staked_balance == pre.total_staked_balance + pre.spec_stake_charge(amount),
        post.total_stake_shares == pre.total_stake_shares + pre.spec_stake_shares(amount),
    ensures
        post.spec_amount_from_shares_up(pre.spec_stake_shares(amount)) <= amount,
{
    let tb = pre.total_staked_balance as int;
    let ts = pre.total_stake_shares as int;
    let n = pre.spec_stake_shares(amount);
    let c = pre.spec_stake_charge(amount);
    let tb2 = tb + c;
    let ts2 = ts + n;
    // tb2 * n <= amount * ts2, so even the up-rounded redemption is bounded.
    if tb == 0 {
        assert(n == amount && c == amount && ts == 0);
        assert(tb2 * n == amount * ts2);
    } else {
        lemma_mul_nonnegative(ts, amount);
        lemma_div_pos_is_pos(ts * amount, tb);
        lemma_fundamental_div_mod(ts * amount, tb);
        lemma_mod_bound(ts * amount, tb);
        assert(tb * n <= ts * amount);
        lemma_mul_nonnegative(tb, n);
        lemma_div_pos_is_pos(tb * n, ts);
        lemma_fundamental_div_mod(tb * n, ts);
        lemma_mod_bound(tb * n, ts);
        assert(ts * c <= tb * n);
        // c <= amount: the charge is the down-rounded value of shares that
        // are themselves a down-rounded conversion of `amount`.
        assert(c * ts <= amount * ts) by (nonlinear_arith)
            requires
                ts * c <= tb * n,
                tb * n <= ts * amount;
        assert(c <= amount) by (nonlinear_arith)
            requires
                c * ts <= amount * ts,
                ts > 0;
        assert(tb2 * n <= amount * ts2) by (nonlinear_arith)
            requires
                tb2 == tb + c,
                ts2 == ts + n,
                tb * n <= ts * amount,
                c <= amount,
                0 <= n;
    }
    // ceil(tb2 * n / ts2) <= amount follows.
    assert(ts2 > 0);
    lemma_div_is_ordered(tb2 * n + ts2 - 1, amount * ts2 + ts2 - 1, ts2);
    lemma_fundamental_div_mod_converse_div(amount * ts2 + ts2 - 1, ts2, amount, ts2 - 1);
}

} // verus!
