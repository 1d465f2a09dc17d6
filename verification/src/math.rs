//! Fixed-point ratios and the floored `a * b / c` on 128-bit amounts.
use vstd::prelude::*;

verus! {

/// Number of atomic units in the ratio 1.0 (eighteen decimal places).
pub const DECIMAL_FRACTIONAL: u128 = 1_000_000_000_000_000_000u128;

/// Number of atomic units in one percent.
pub const PERCENT_ATOMICS: u128 = 10_000_000_000_000_000u128;

/// `value * numerator / denominator`, floored, over the mathematical integers.
pub open spec fn mul_div(value: int, numerator: int, denominator: int) -> int
    recommends
        denominator != 0,
{
    value * numerator / denominator
}

/// The same quotient as a 128-bit amount, where it has one.
pub open spec fn checked_mul_div(value: u128, numerator: u128, denominator: u128) -> Option<u128> {
    if denominator != 0 && mul_div(value as int, numerator as int, denominator as int) <= u128::MAX {
        Some(mul_div(value as int, numerator as int, denominator as int) as u128)
    } else {
        None
    }
}

/// Calls `cosmwasm_std::Uint128::checked_multiply_ratio`, which multiplies in
/// 256 bits and floors the quotient. Trusted: the result is
/// `value * numerator / denominator` whenever the denominator is not zero and
/// the quotient fits in 128 bits, and `None` otherwise (the two error variants
/// of the outside function).
#[verifier::external_body]
pub(crate) fn mul_ratio(value: u128, numerator: u128, denominator: u128) -> (r: Option<u128>)
    ensures
        r == checked_mul_div(value, numerator, denominator),
{
    match cosmwasm_std::Uint128::new(value).checked_multiply_ratio(numerator, denominator) {
        Ok(v) => Some(v.u128()),
        Err(_) => None,
    }
}

/// Calls `cosmwasm_std::Decimal::checked_from_ratio` and reads the result's
/// atomic units. Trusted: the result is
/// `numerator * 10^18 / denominator`, floored, whenever the denominator is not
/// zero and the quotient fits in 128 bits, and `None` otherwise.
#[verifier::external_body]
pub(crate) fn decimal_atomics(numerator: u128, denominator: u128) -> (r: Option<u128>)
    ensures
        r == checked_mul_div(numerator, DECIMAL_FRACTIONAL, denominator),
{
    match cosmwasm_std::Decimal::checked_from_ratio(numerator, denominator) {
        Ok(d) => Some(d.atomics().u128()),
        Err(_) => None,
    }
}

/// A non-negative fixed-point number with eighteen decimal places.
#[derive(Clone, Copy, Debug, PartialEq, Eq, Structural)]
pub struct Ratio {
    pub atomics: u128,
}

impl Ratio {
    /// Whether the ratio lies in `[0, 1]`.
    pub open spec fn in_unit_range(&self) -> bool {
        self.atomics <= DECIMAL_FRACTIONAL
    }

    /// The ratio 0.
    pub fn zero() -> (r: Ratio)
        ensures
            r.atomics == 0,
    {
        Ratio { atomics: 0 }
    }

    /// The ratio 1.
    pub fn one() -> (r: Ratio)
        ensures
            r.atomics == DECIMAL_FRACTIONAL,
    {
        Ratio { atomics: DECIMAL_FRACTIONAL }
    }

    /// `p` hundredths.
    pub fn percent(p: u64) -> (r: Ratio)
        ensures
            r.atomics == p * PERCENT_ATOMICS,
    {
        assert(p * PERCENT_ATOMICS <= u64::MAX * PERCENT_ATOMICS) by (nonlinear_arith)
            requires
                p <= u64::MAX,
        ;
        let wide: u128 = p as u128;
        Ratio { atomics: wide * PERCENT_ATOMICS }
    }

    /// `numerator / denominator` rounded down to eighteen places; `None` when
    /// the denominator is zero or the quotient is too large to hold.
    pub fn from_ratio(numerator: u128, denominator: u128) -> (r: Option<Ratio>)
        ensures
            r == match checked_mul_div(numerator, DECIMAL_FRACTIONAL, denominator) {
                Some(a) => Some(Ratio { atomics: a }),
                None => None,
            },
    {
        match decimal_atomics(numerator, denominator) {
            Some(a) => Some(Ratio { atomics: a }),
            None => None,
        }
    }

    /// Whether the ratio lies in `[0, 1]`.
    pub fn is_in_unit_range(&self) -> (r: bool)
        ensures
            r == self.in_unit_range(),
    {
        self.atomics <= DECIMAL_FRACTIONAL
    }
}

/// A floored quotient never exceeds the factor it scales when the numerator is
/// at most the denominator.
pub proof fn lemma_mul_div_bounded(value: int, numerator: int, denominator: int)
    requires
        0 <= value,
        0 <= numerator <= denominator,
        0 < denominator,
    ensures
        0 <= mul_div(value, numerator, denominator) <= value,
{
    assert(value * numerator <= value * denominator) by (nonlinear_arith)
        requires
            0 <= value,
            0 <= numerator <= denominator,
    ;
    assert(0 <= value * numerator) by (nonlinear_arith)
        requires
            0 <= value,
            0 <= numerator,
    ;
    assert(value * denominator == denominator * value) by (nonlinear_arith);
    vstd::arithmetic::div_mod::lemma_div_is_ordered(value * numerator, denominator * value, denominator);
    vstd::arithmetic::div_mod::lemma_div_multiples_vanish(value, denominator);
    vstd::arithmetic::div_mod::lemma_div_pos_is_pos(value * numerator, denominator);
}

/// Flooring `x / d` and multiplying back by `d` does not exceed `x`.
pub proof fn lemma_floor_times_divisor(x: int, d: int)
    requires
        0 <= x,
        0 < d,
    ensures
        0 <= (x / d) * d <= x,
{
    vstd::arithmetic::div_mod::lemma_fundamental_div_mod(x, d);
    vstd::arithmetic::div_mod::lemma_mod_bound(x, d);
    vstd::arithmetic::div_mod::lemma_div_pos_is_pos(x, d);
    assert((x / d) * d == d * (x / d)) by (nonlinear_arith);
    assert(0 <= (x / d) * d) by (nonlinear_arith)
        requires
            0 <= x / d,
            0 < d,
    ;
}

} // verus!
