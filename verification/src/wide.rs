//! Overflow-safe wide arithmetic for the share-price conversions.
//!
//! The conversions need `floor(a * b / c)` and `ceil(a * b / c)` over 128-bit
//! unsigned values, where the intermediate product `a * b` does not fit in
//! 128 bits.  The product is held as a (high, low) pair of 128-bit words and
//! divided by binary long division: one quotient bit per step, with the
//! running remainder kept below the divisor so that no intermediate value
//! ever overflows.

use vstd::prelude::*;
use vstd::arithmetic::div_mod::*;
use vstd::arithmetic::mul::*;
use vstd::arithmetic::power2::*;

verus! {

/// 2^64, the base used to split a 128-bit factor into halves.
const HALF_BASE: u128 = 0x1_0000_0000_0000_0000;

/// 2^127, used to read the top bit of a 128-bit word.
const TOP_BIT: u128 = 0x8000_0000_0000_0000_0000_0000_0000_0000;

/// The value of a 256-bit quantity held as a (high, low) pair of words.
pub open spec fn wide_val(hi: u128, lo: u128) -> int {
    hi * 0x1_0000_0000_0000_0000_0000_0000_0000_0000 + lo
}

/// Concrete values of the powers of two this module manipulates.
proof fn lemma_pow2_values()
    ensures
        pow2(64) == 0x1_0000_0000_0000_0000,
        pow2(127) == 0x8000_0000_0000_0000_0000_0000_0000_0000,
        pow2(128) == 0x1_0000_0000_0000_0000_0000_0000_0000_0000,
{
    lemma2_to64();
    lemma_pow2_adds(32, 31);
    assert(pow2(63) == 0x8000_0000_0000_0000);
    lemma_pow2_adds(64, 63);
    lemma_pow2_adds(64, 64);
}

/// Rounding-up division rewritten as the `(n + d - 1) / d` form the
/// conversions compute.
pub proof fn lemma_ceil_div(n: int, d: int)
    requires
        0 <= n,
        0 < d,
    ensures
        (n + d - 1) / d == n / d + (if n % d == 0 { 0int } else { 1int }),
{
    let q: int = n / d;
    let r: int = n % d;
    lemma_fundamental_div_mod(n, d);
    lemma_div_pos_is_pos(n, d);
    if r == 0 {
        assert(n + d - 1 == q * d + (d - 1)) by {
            lemma_mul_is_commutative(d, q);
        }
        lemma_fundamental_div_mod_converse_div(n + d - 1, d, q, d - 1);
    } else {
        assert(n + d - 1 == (q + 1) * d + (r - 1)) by {
            lemma_mul_is_distributive_add_other_way(d, q, 1);
            lemma_mul_is_commutative(d, q + 1);
            lemma_mul_is_commutative(d, q);
        }
        lemma_fundamental_div_mod_converse_div(n + d - 1, d, q + 1, r - 1);
    }
}

/// Floor division is monotone across cross-multiplied fractions: if
/// `a / b >= c / d` holds of the rationals, it holds of the floors.
pub proof fn lemma_floor_div_mono_cross(a: int, b: int, c: int, d: int)
    requires
        0 <= a,
        0 < b,
        0 <= c,
        0 < d,
        a * d >= c * b,
    ensures
        a / b >= c / d,
{
    let p = c / d;
    lemma_div_pos_is_pos(c, d);
    lemma_fundamental_div_mod(c, d);
    lemma_mod_bound(c, d);
    assert(d * p <= c);
    assert(a * d >= (p * b) * d) by (nonlinear_arith)
        requires
            a * d >= c * b,
            c >= d * p,
            b > 0,
            d > 0;
    assert(a >= p * b) by (nonlinear_arith)
        requires
            a * d >= (p * b) * d,
            d > 0;
    lemma_div_is_ordered(p * b, a, b);
    assert(p * b == b * p) by {
        lemma_mul_is_commutative(p, b);
    }
    lemma_div_multiples_vanish(p, b);
}

/// The full product of two 128-bit values, as a (high, low) pair.
fn mul_wide(a: u128, b: u128) -> (r: (u128, u128))
    ensures
        wide_val(r.0, r.1) == a * b,
{
    let a1: u128 = a / HALF_BASE;
    let a0: u128 = a % HALF_BASE;
    let b1: u128 = b / HALF_BASE;
    let b0: u128 = b % HALF_BASE;
    proof {
        lemma_fundamental_div_mod(a as int, HALF_BASE as int);
        lemma_fundamental_div_mod(b as int, HALF_BASE as int);
        assert(a0 * b0 <= 0xFFFF_FFFF_FFFF_FFFF * 0xFFFF_FFFF_FFFF_FFFF
            && a0 * b1 <= 0xFFFF_FFFF_FFFF_FFFF * 0xFFFF_FFFF_FFFF_FFFF
            && a1 * b0 <= 0xFFFF_FFFF_FFFF_FFFF * 0xFFFF_FFFF_FFFF_FFFF
            && a1 * b1 <= 0xFFFF_FFFF_FFFF_FFFF * 0xFFFF_FFFF_FFFF_FFFF) by (nonlinear_arith)
            requires
                a0 <= 0xFFFF_FFFF_FFFF_FFFF,
                a1 <= 0xFFFF_FFFF_FFFF_FFFF,
                b0 <= 0xFFFF_FFFF_FFFF_FFFF,
                b1 <= 0xFFFF_FFFF_FFFF_FFFF;
    }
    let p00: u128 = a0 * b0;
    let p01: u128 = a0 * b1;
    let p10: u128 = a1 * b0;
    let p11: u128 = a1 * b1;
    let cross: u128 = p10 + p00 / HALF_BASE;
    let cross2: u128 = p01 + cross % HALF_BASE;
    let lo: u128 = (cross2 % HALF_BASE) * HALF_BASE + p00 % HALF_BASE;
    let hi: u128 = p11 + cross / HALF_BASE + cross2 / HALF_BASE;
    proof {
        lemma_fundamental_div_mod(p00 as int, HALF_BASE as int);
        lemma_fundamental_div_mod(cross as int, HALF_BASE as int);
        lemma_fundamental_div_mod(cross2 as int, HALF_BASE as int);
        assert((a1 * HALF_BASE + a0) * (b1 * HALF_BASE + b0)
            == ((a1 * b1) * HALF_BASE) * HALF_BASE + (a1 * b0) * HALF_BASE
                + (a0 * b1) * HALF_BASE + a0 * b0) by (nonlinear_arith);
    }
    (hi, lo)
}

/// Adds a 128-bit value into a (high, low) pair, carrying into the high word.
fn add_to_wide(hi: u128, lo: u128, e: u128) -> (r: (u128, u128))
    requires
        hi < u128::MAX,
    ensures
        wide_val(r.0, r.1) == wide_val(hi, lo) + e,
{
    if e <= u128::MAX - lo {
        (hi, lo + e)
    } else {
        (hi + 1, lo - (u128::MAX - e) - 1)
    }
}

/// Binary long division of a 256-bit value by a 128-bit divisor.  The
/// quotient fits in 128 bits because the high word is below the divisor.
fn div_wide(hi: u128, lo: u128, d: u128) -> (q: u128)
    requires
        0 < d,
        hi < d,
    ensures
        q == wide_val(hi, lo) / (d as int),
{
    proof {
        lemma_pow2_values();
        lemma2_to64();
        lemma_pow2_pos(128);
        lemma_basic_div(lo as int, pow2(128) as int);
        lemma_small_mod(lo as nat, pow2(128));
    }
    let mut q: u128 = 0;
    let mut r: u128 = hi;
    let mut sh: u128 = lo;
    let mut i: usize = 0;
    while i < 128
        invariant
            0 < d,
            i <= 128,
            r < d,
            q <= pow2(i as nat) - 1,
            sh == (lo as int % pow2((128 - i) as nat) as int) * pow2(i as nat) as int,
            q * d + r == hi * pow2(i as nat) as int + lo as int / pow2((128 - i) as nat) as int,
            pow2(127) == 0x8000_0000_0000_0000_0000_0000_0000_0000,
            pow2(128) == 0x1_0000_0000_0000_0000_0000_0000_0000_0000,
        decreases 128 - i,
    {
        let ghost ii: nat = i as nat;
        let ghost kk: int = pow2((127 - ii) as nat) as int;
        let ghost mm: int = lo as int % pow2((128 - ii) as nat) as int;
        let ghost bitv: int = (lo as int / kk) % 2;
        let ghost rest: int = lo as int % kk;
        let ghost q0: int = q as int;
        let ghost r0: int = r as int;
        let ghost nn: int = hi * pow2(ii) as int + lo as int / pow2((128 - ii) as nat) as int;
        proof {
            lemma_pow2_pos((127 - ii) as nat);
            lemma_pow2_pos((128 - ii) as nat);
            lemma_pow2_pos(ii);
            lemma2_to64();
            // pow2(128 - i) == pow2(127 - i) * 2: the top bit of the
            // remaining low part splits off arithmetically.
            lemma_pow2_adds((127 - ii) as nat, 1);
            assert(kk * 2 == pow2((128 - ii) as nat) as int);
            lemma_mod_breakdown(lo as int, kk, 2);
            assert(mm == kk * bitv + rest);
            // The next numerator prefix is twice the current one plus the bit.
            lemma_div_denominator(lo as int, kk, 2);
            lemma_fundamental_div_mod(lo as int / kk, 2);
            assert(lo as int / kk == 2 * (lo as int / pow2((128 - ii) as nat) as int) + bitv);
            // The top bit of `sh` is exactly `bitv`.
            lemma_pow2_adds((127 - ii) as nat, ii);
            assert(sh == bitv * pow2(127) as int + rest * pow2(ii) as int) by (nonlinear_arith)
                requires
                    sh == mm * pow2(ii) as int,
                    mm == kk * bitv + rest,
                    kk * pow2(ii) as int == pow2(127) as int;
            assert((0 <= rest * pow2(ii) as int) && ((rest * (pow2(ii) as int)) < kk * pow2(ii) as int))
                by (nonlinear_arith)
                requires
                    0 <= rest < kk,
                    0 < pow2(ii) as int;
            lemma_fundamental_div_mod_converse(
                sh as int,
                pow2(127) as int,
                bitv,
                rest * pow2(ii) as int,
            );
        }
        let bit: u128 = sh / TOP_BIT;
        sh = (sh % TOP_BIT) * 2;
        proof {
            assert(bit == bitv);
            // The shifted low part satisfies the invariant one step further:
            // sh == rest * pow2(i + 1) and rest == lo % pow2(128 - (i + 1)).
            lemma_pow2_adds(ii, 1);
            assert((rest * pow2(ii) as int) * 2 == rest * pow2((ii + 1) as nat) as int)
                by (nonlinear_arith)
                requires
                    pow2((ii + 1) as nat) as int == pow2(ii) as int * 2;
            // Bound for the coming shift of q.
            lemma_pow2_unfold((ii + 1) as nat);
            if ii + 1 < 128 {
                lemma_pow2_strictly_increases((ii + 1) as nat, 128);
            }
            assert(pow2((ii + 1) as nat) <= pow2(128));
            assert(hi * pow2((ii + 1) as nat) as int == 2 * (hi * pow2(ii) as int))
                by (nonlinear_arith)
                requires
                    pow2((ii + 1) as nat) as int == 2 * pow2(ii) as int;
        }
        let db: u128 = d - bit;
        if r >= db {
            let t: u128 = r - db;
            r = r + t;
            q = q * 2 + 1;
        } else {
            let s: u128 = db - r;
            if r >= s {
                r = r - s;
                q = q * 2 + 1;
            } else {
                r = r + r + bit;
                q = q * 2;
            }
        }
        i = i + 1;
        proof {
            assert(q0 * d + r0 == nn);
            if r0 + r0 + bitv >= d {
                assert(q == 2 * q0 + 1 && r == 2 * r0 + bitv - d);
                assert(q * d + r == 2 * nn + bitv) by (nonlinear_arith)
                    requires
                        q == 2 * q0 + 1,
                        r == 2 * r0 + bitv - d,
                        q0 * d + r0 == nn;
            } else {
                assert(q == 2 * q0 && r == 2 * r0 + bitv);
                assert(q * d + r == 2 * nn + bitv) by (nonlinear_arith)
                    requires
                        q == 2 * q0,
                        r == 2 * r0 + bitv,
                        q0 * d + r0 == nn;
            }
            assert(q * d + r == hi * pow2(i as nat) as int
                + lo as int / pow2((128 - i) as nat) as int);
        }
    }
    proof {
        lemma2_to64();
        assert(lo as int / pow2(0) as int == lo);
        lemma_fundamental_div_mod_converse_div(
            hi * pow2(128) as int + lo,
            d as int,
            q as int,
            r as int,
        );
    }
    q
}

/// `floor(a * b / c)` without overflow in the product, for quotients that
/// fit in 128 bits.
pub fn mul_div_floor(a: u128, b: u128, c: u128) -> (q: u128)
    requires
        0 < c,
        a * b / (c as int) <= u128::MAX,
    ensures
        q == a * b / (c as int),
{
    let (hi, lo) = mul_wide(a, b);
    proof {
        lemma_quotient_fits(a as int * b as int, c as int);
        assert(hi < c) by (nonlinear_arith)
            requires
                hi * 0x1_0000_0000_0000_0000_0000_0000_0000_0000 + lo == a * b,
                lo >= 0,
                a * b < 0x1_0000_0000_0000_0000_0000_0000_0000_0000 * c;
    }
    div_wide(hi, lo, c)
}

/// `ceil(a * b / c)` without overflow in the product, computed in the
/// `(n + c - 1) / c` form, for results that fit in 128 bits.
pub fn mul_div_ceil(a: u128, b: u128, c: u128) -> (q: u128)
    requires
        0 < c,
        (a * b + c - 1) / (c as int) <= u128::MAX,
    ensures
        q == (a * b + c - 1) / (c as int),
        q == a * b / (c as int) + (if a * b % (c as int) == 0 { 0int } else { 1int }),
{
    let (hi, lo) = mul_wide(a, b);
    proof {
        assert(a * b <= u128::MAX * u128::MAX) by (nonlinear_arith)
            requires
                a <= u128::MAX,
                b <= u128::MAX;
        assert(hi < u128::MAX) by (nonlinear_arith)
            requires
                hi * 0x1_0000_0000_0000_0000_0000_0000_0000_0000 + lo == a * b,
                lo >= 0,
                a * b <= u128::MAX * u128::MAX;
    }
    let (hi2, lo2) = add_to_wide(hi, lo, c - 1);
    proof {
        lemma_quotient_fits(a as int * b as int + c - 1, c as int);
        assert(hi2 < c) by (nonlinear_arith)
            requires
                hi2 * 0x1_0000_0000_0000_0000_0000_0000_0000_0000 + lo2 == a * b + c - 1,
                lo2 >= 0,
                a * b + c - 1 < 0x1_0000_0000_0000_0000_0000_0000_0000_0000 * c;
        lemma_mul_nonnegative(a as int, b as int);
        lemma_ceil_div(a as int * b as int, c as int);
    }
    div_wide(hi2, lo2, c)
}

/// A nonnegative value whose quotient by `d` fits in 128 bits is itself
/// below `2^128 * d`.
proof fn lemma_quotient_fits(n: int, d: int)
    requires
        0 <= n,
        0 < d,
        n / d <= u128::MAX,
    ensures
        n < 0x1_0000_0000_0000_0000_0000_0000_0000_0000 * d,
{
    let big: int = 0x1_0000_0000_0000_0000_0000_0000_0000_0000int;
    if n >= big * d {
        lemma_div_is_ordered(big * d, n, d);
        lemma_div_multiples_vanish(big, d);
        assert(d * big == big * d) by {
            lemma_mul_is_commutative(d, big);
        }
        assert(n / d >= big);
        assert(false);
    }
}

} // verus!
