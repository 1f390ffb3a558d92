//! The fee fraction taken from rewards before they are credited.
//!
//! The fraction is enforced valid at configuration time: a nonzero
//! denominator and a numerator no greater than it, so it never scales a
//! value up.

use vstd::prelude::*;
use vstd::arithmetic::div_mod::*;
use vstd::arithmetic::mul::*;

use crate::errors::PoolError;
use crate::wide::mul_div_floor;

verus! {

/// A fraction `numerator / denominator` with value at most one.
#[derive(Clone, Copy, Debug, PartialEq, Eq, Structural)]
pub struct RewardFeeFraction {
    pub numerator: u32,
    pub denominator: u32,
}

impl RewardFeeFraction {
    /// A usable fraction: the denominator is nonzero and the value is at
    /// most one.
    pub open spec fn is_valid(self) -> bool {
        self.denominator != 0 && self.numerator <= self.denominator
    }

    /// Checks the configuration-time validity of the fraction.
    pub fn assert_valid(&self) -> (r: Result<(), PoolError>)
        ensures
            r.is_ok() <==> self.is_valid(),
            !self.is_valid() ==> r == Err::<(), PoolError>(PoolError::InvalidRewardFraction),
    {
        if self.denominator == 0 {
            Err(PoolError::InvalidRewardFraction)
        } else if self.numerator > self.denominator {
            Err(PoolError::InvalidRewardFraction)
        } else {
            Ok(())
        }
    }

    /// Scales `value` by the fraction, rounding down.
    pub fn multiply(&self, value: u128) -> (r: u128)
        requires
            self.is_valid(),
        ensures
            r == self.numerator * value / (self.denominator as int),
            r <= value,
    {
        proof {
            lemma_mul_inequality(
                self.numerator as int,
                self.denominator as int,
                value as int,
            );
            lemma_div_is_ordered(
                self.numerator * value,
                self.denominator * value,
                self.denominator as int,
            );
            lemma_div_multiples_vanish(value as int, self.denominator as int);
            lemma_mul_nonnegative(self.numerator as int, value as int);
        }
        mul_div_floor(self.numerator as u128, value, self.denominator as u128)
    }
}

} // verus!
