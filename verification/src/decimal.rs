use vstd::prelude::*;
use vstd::arithmetic::div_mod::{lemma_fundamental_div_mod, lemma_div_is_ordered, lemma_div_by_multiple};
use vstd::arithmetic::mul::{lemma_mul_inequality, lemma_mul_is_distributive_add_other_way};
use crate::error::DistributorError;

verus! {

/// How many atomics make one whole unit: an index value carries eighteen
/// fractional decimal digits.
pub const DECIMAL_FRACTIONAL: u128 = 1_000_000_000_000_000_000;

/// An exact non-negative fixed-point number with eighteen fractional decimal
/// digits, stored as a count of atomics.  All arithmetic is checked: a result
/// outside the representable range is reported as an error, never clamped,
/// so that replicated executions agree bit for bit.
#[derive(Clone, Copy, Debug, PartialEq, Eq, Structural)]
pub struct Decimal {
    pub atomics: u128,
}

impl View for Decimal {
    type V = int;

    open spec fn view(&self) -> int {
        self.atomics as int
    }
}

/// The atomics of the exact ratio `numerator / denominator`, rounded down.
pub open spec fn ratio_atomics(numerator: int, denominator: int) -> int {
    numerator * (DECIMAL_FRACTIONAL as int) / denominator
}

/// `a * b <= m` follows from `a <= m / b`.
proof fn lemma_mul_le_from_div(a: int, b: int, m: int)
    requires
        0 <= a,
        0 < b,
        0 <= m,
        a <= m / b,
    ensures
        a * b <= m,
{
    lemma_fundamental_div_mod(m, b);
    lemma_mul_inequality(a, m / b, b);
}

/// `a * b > m` follows from `a > m / b`.
proof fn lemma_mul_gt_from_div(a: int, b: int, m: int)
    requires
        0 < b,
        0 <= m,
        a > m / b,
    ensures
        a * b > m,
{
    lemma_fundamental_div_mod(m, b);
    lemma_mul_inequality(m / b + 1, a, b);
    lemma_mul_is_distributive_add_other_way(b, m / b, 1);
}

impl Decimal {
    /// The zero index, also the default for an asset never deposited into.
    pub fn zero() -> (d: Decimal)
        ensures
            d@ == 0,
    {
        Decimal { atomics: 0 }
    }

    /// A value given directly as a count of atomics.
    pub fn raw(atomics: u128) -> (d: Decimal)
        ensures
            d@ == atomics,
    {
        Decimal { atomics }
    }

    pub fn is_zero(&self) -> (r: bool)
        ensures
            r == (self@ == 0),
    {
        self.atomics == 0
    }

    /// Exact addition; a sum beyond the representable range is an error.
    pub fn checked_add(self, other: Decimal) -> (r: Result<Decimal, DistributorError>)
        ensures
            self@ + other@ <= u128::MAX ==> (r matches Ok(d) && d@ == self@ + other@),
            self@ + other@ > u128::MAX ==> r == Err::<Decimal, DistributorError>(
                DistributorError::Overflow,
            ),
    {
        if self.atomics <= u128::MAX - other.atomics {
            Ok(Decimal { atomics: self.atomics + other.atomics })
        } else {
            Err(DistributorError::Overflow)
        }
    }

    /// Exact subtraction; going below zero is an error.
    pub fn checked_sub(self, other: Decimal) -> (r: Result<Decimal, DistributorError>)
        ensures
            other@ <= self@ ==> (r matches Ok(d) && d@ == self@ - other@),
            other@ > self@ ==> r == Err::<Decimal, DistributorError>(DistributorError::Overflow),
    {
        if other.atomics <= self.atomics {
            Ok(Decimal { atomics: self.atomics - other.atomics })
        } else {
            Err(DistributorError::Overflow)
        }
    }

    /// The exact ratio `numerator / denominator`, rounded down to an atomic.
    /// A zero denominator means there is no weight to distribute over.
    pub fn from_ratio(numerator: u128, denominator: u128) -> (r: Result<
        Decimal,
        DistributorError,
    >)
        ensures
            denominator == 0 ==> r == Err::<Decimal, DistributorError>(
                DistributorError::InvalidWeight,
            ),
            denominator != 0 && numerator * DECIMAL_FRACTIONAL <= u128::MAX ==> (r matches Ok(d)
                && d@ == ratio_atomics(numerator as int, denominator as int)),
            denominator != 0 && numerator * DECIMAL_FRACTIONAL > u128::MAX ==> r == Err::<
                Decimal,
                DistributorError,
            >(DistributorError::Overflow),
    {
        if denominator == 0 {
            Err(DistributorError::InvalidWeight)
        } else if numerator <= u128::MAX / DECIMAL_FRACTIONAL {
            proof {
                lemma_mul_le_from_div(
                    numerator as int,
                    DECIMAL_FRACTIONAL as int,
                    u128::MAX as int,
                );
            }
            Ok(Decimal { atomics: numerator * DECIMAL_FRACTIONAL / denominator })
        } else {
            proof {
                lemma_mul_gt_from_div(
                    numerator as int,
                    DECIMAL_FRACTIONAL as int,
                    u128::MAX as int,
                );
            }
            Err(DistributorError::Overflow)
        }
    }

    /// Multiplies by a whole-unit weight and rounds the product down to a
    /// whole amount.
    pub fn mul_floor(self, weight: u128) -> (r: Result<u128, DistributorError>)
        ensures
            self@ * weight <= u128::MAX ==> (r matches Ok(a) && a == self@ * weight / (
            DECIMAL_FRACTIONAL as int)),
            self@ * weight > u128::MAX ==> r == Err::<u128, DistributorError>(
                DistributorError::Overflow,
            ),
    {
        if weight == 0 {
            Ok(0)
        } else if self.atomics <= u128::MAX / weight {
            proof {
                lemma_mul_le_from_div(self.atomics as int, weight as int, u128::MAX as int);
            }
            Ok(self.atomics * weight / DECIMAL_FRACTIONAL)
        } else {
            proof {
                lemma_mul_gt_from_div(self.atomics as int, weight as int, u128::MAX as int);
            }
            Err(DistributorError::Overflow)
        }
    }
}

} // verus!
