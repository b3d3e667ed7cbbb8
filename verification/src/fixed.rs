//! Fixed-point micro-unit arithmetic.
//!
//! One unit is `SCALE` micro-units. Prices, amounts, decay factors and
//! environment indices are all `i64` micro-unit counts; intermediate
//! products are taken in 128-bit arithmetic so that only the final result
//! must fit an `i64`.

use vstd::prelude::*;

verus! {

/// Micro-units in one whole unit.
pub const SCALE: i64 = 1_000_000;

/// Micro-units in one hundredth of a unit: prices are rounded to this
/// step before they go on the wire.
pub const CENT: i64 = 10_000;

/// Micro-units in one thousandth of a unit: the environment index is
/// reported at this resolution.
pub const MILLI: i64 = 1_000;

/// Largest magnitude, in micro-units, that the rounding helpers accept;
/// rounding half a step up from here still fits an `i64`.
pub const MICRO_LIMIT: i64 = 9_000_000_000_000_000_000;

/// `v` micro-units rounded to the nearest multiple of `step`, halves away
/// from zero.
pub open spec fn round_to_step(v: int, step: int) -> int {
    if v >= 0 {
        ((v + step / 2) / step) * step
    } else {
        -((((-v) + step / 2) / step) * step)
    }
}

/// `v` rounded to the nearest hundredth of a unit, halves away from zero.
pub open spec fn spec_round_2(v: int) -> int {
    round_to_step(v, CENT as int)
}

/// `v` rounded to the nearest thousandth of a unit, halves away from zero.
pub open spec fn spec_round_3(v: int) -> int {
    round_to_step(v, MILLI as int)
}

/// Rounds a micro-unit price to the nearest hundredth of a unit, halves
/// away from zero.
pub fn round_2(val: i64) -> (r: i64)
    requires
        -MICRO_LIMIT <= val <= MICRO_LIMIT,
    ensures
        r == spec_round_2(val as int),
{
    round_step(val, CENT)
}

/// Rounds a micro-unit index to the nearest thousandth of a unit, halves
/// away from zero.
pub fn round_3(val: i64) -> (r: i64)
    requires
        -MICRO_LIMIT <= val <= MICRO_LIMIT,
    ensures
        r == spec_round_3(val as int),
{
    round_step(val, MILLI)
}

fn round_step(val: i64, step: i64) -> (r: i64)
    requires
        -MICRO_LIMIT <= val <= MICRO_LIMIT,
        0 < step <= SCALE,
    ensures
        r == round_to_step(val as int, step as int),
{
    if val >= 0 {
        let q = (val + step / 2) / step;
        proof {
            lemma_div_mul_le((val + step / 2) as int, step as int);
        }
        q * step
    } else {
        let m = -val;
        let q = (m + step / 2) / step;
        proof {
            lemma_div_mul_le((m + step / 2) as int, step as int);
        }
        -(q * step)
    }
}

/// Rounding a nonnegative value moves it by at most half a step and
/// never below zero.
pub proof fn lemma_round_to_step_bounds(v: int, step: int)
    requires
        0 <= v,
        0 < step,
    ensures
        0 <= round_to_step(v, step),
        v - step / 2 <= round_to_step(v, step) <= v + step / 2,
{
    let a = v + step / 2;
    lemma_div_mul_le(a, step);
    vstd::arithmetic::div_mod::lemma_fundamental_div_mod(a, step);
    vstd::arithmetic::div_mod::lemma_mod_division_less_than_divisor(a, step);
    vstd::arithmetic::mul::lemma_mul_is_commutative(a / step, step);
}

/// Multiplying a floored quotient back by the divisor stays between zero
/// and the dividend.
pub proof fn lemma_div_mul_le(a: int, b: int)
    requires
        a >= 0,
        b > 0,
    ensures
        0 <= (a / b) * b <= a,
{
    vstd::arithmetic::div_mod::lemma_fundamental_div_mod(a, b);
    vstd::arithmetic::div_mod::lemma_mod_division_less_than_divisor(a, b);
    vstd::arithmetic::mul::lemma_mul_nonnegative(a / b, b);
    vstd::arithmetic::mul::lemma_mul_is_commutative(a / b, b);
}

} // verus!
