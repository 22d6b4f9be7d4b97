//! The larger and the smaller of two single-precision numbers, and a number
//! held between two bounds, from pattern to pattern.
//!
//! Single-precision numbers are not totally ordered: a NaN compares with
//! nothing, and the two zeros compare equal. The operations here settle both
//! cases as the vector instructions of common hardware do. A NaN operand
//! makes the result a NaN, and negative zero counts as smaller than positive
//! zero.

use vstd::prelude::*;
use vstd::arithmetic::power2::{lemma_pow2_adds, lemma_pow2_pos, pow2};
use crate::binary32::nan::{check_nan, lemma_quieted_nan, propagate, propagated_nan};
use crate::binary32::round::lemma_pow2_monotone;
use crate::binary32::{
    exponent_field, is_finite, is_nan, is_negative, magnitude_bits, scale, signed_significand,
    significand, units, SIGN,
};

verus! {

/// An integer that orders the patterns of numbers as the numbers themselves
/// are ordered, with negative zero just below positive zero. Two patterns
/// other than NaNs have the same key only if they are the same pattern.
pub open spec fn order_key(b: u32) -> int {
    if is_negative(b) {
        -magnitude_bits(b) - 1
    } else {
        b as int
    }
}

/// The larger of `a` and `b`, or a NaN if either is one.
pub open spec fn maximum_of(a: u32, b: u32) -> u32 {
    if is_nan(a) || is_nan(b) {
        propagated_nan(a, b)
    } else if order_key(a) >= order_key(b) {
        a
    } else {
        b
    }
}

/// The smaller of `a` and `b`, or a NaN if either is one.
pub open spec fn minimum_of(a: u32, b: u32) -> u32 {
    if is_nan(a) || is_nan(b) {
        propagated_nan(a, b)
    } else if order_key(a) <= order_key(b) {
        a
    } else {
        b
    }
}

/// `x` held between `low` and `high`: first brought down to `high`, then
/// brought up to `low`. The lower bound is applied last, so where the bounds
/// cross each other it is the lower bound that comes out.
pub open spec fn clamp_of(x: u32, low: u32, high: u32) -> u32 {
    maximum_of(minimum_of(x, high), low)
}

/// The order key of a pattern.
fn key(b: u32) -> (k: i64)
    ensures
        k == order_key(b),
{
    if b >= SIGN {
        -((b - SIGN) as i64) - 1
    } else {
        b as i64
    }
}

/// The larger of two numbers. A NaN operand gives a NaN, and positive zero
/// is larger than negative zero.
pub fn maximum(a: u32, b: u32) -> (r: u32)
    ensures
        r == maximum_of(a, b),
{
    if check_nan(a) || check_nan(b) {
        propagate(a, b)
    } else if key(a) >= key(b) {
        a
    } else {
        b
    }
}

/// The smaller of two numbers. A NaN operand gives a NaN, and negative zero
/// is smaller than positive zero.
pub fn minimum(a: u32, b: u32) -> (r: u32)
    ensures
        r == minimum_of(a, b),
{
    if check_nan(a) || check_nan(b) {
        propagate(a, b)
    } else if key(a) <= key(b) {
        a
    } else {
        b
    }
}

/// `x` held between `low` and `high`. Where `low` lies above `high` the
/// result is `low`.
pub fn clamp(x: u32, low: u32, high: u32) -> (r: u32)
    ensures
        r == clamp_of(x, low, high),
{
    maximum(minimum(x, high), low)
}

/// Among positive finite numbers the larger pattern is the larger number.
proof fn lemma_positive_order(a: u32, b: u32)
    requires
        a < b < crate::binary32::INFINITY,
    ensures
        units(a) < units(b),
{
    let unit_a = pow2((scale(a) + 149) as nat) as int;
    let unit_b = pow2((scale(b) + 149) as nat) as int;
    lemma_pow2_pos((scale(a) + 149) as nat);
    if exponent_field(a) == exponent_field(b) {
        assert(significand(a) * unit_a < significand(b) * unit_a) by (nonlinear_arith)
            requires
                significand(a) < significand(b),
                0 < unit_a,
        ;
    } else if scale(a) == scale(b) {
        // A subnormal number below a number of the lowest normal binade.
        assert(significand(a) * unit_a < significand(b) * unit_a) by (nonlinear_arith)
            requires
                significand(a) < significand(b),
                0 < unit_a,
        ;
    } else {
        lemma_pow2_monotone((scale(a) + 150) as nat, (scale(b) + 149) as nat);
        lemma_pow2_adds(1, (scale(a) + 149) as nat);
        vstd::arithmetic::power2::lemma2_to64();
        assert(significand(a) * unit_a < 0x80_0000 * unit_b) by (nonlinear_arith)
            requires
                significand(a) < 0x100_0000,
                2 * unit_a <= unit_b,
                0 < unit_a,
        ;
        assert(0x80_0000 * unit_b <= significand(b) * unit_b) by (nonlinear_arith)
            requires
                0x80_0000 <= significand(b),
                0 < unit_b,
        ;
    }
}

/// The order key orders finite numbers as their values do: a smaller key
/// goes with a smaller number, or with negative zero before positive zero.
pub proof fn lemma_order_key_follows_value(a: u32, b: u32)
    requires
        is_finite(a),
        is_finite(b),
        order_key(a) < order_key(b),
    ensures
        units(a) < units(b) || (a == SIGN && b == 0),
{
    let x = crate::binary32::abs_of(a);
    let y = crate::binary32::abs_of(b);
    crate::binary32::lemma_magnitude_fields(a);
    crate::binary32::lemma_magnitude_fields(b);
    lemma_pow2_pos((scale(a) + 149) as nat);
    lemma_pow2_pos((scale(b) + 149) as nat);
    assert(units(x) == significand(a) * pow2((scale(a) + 149) as nat));
    assert(units(y) == significand(b) * pow2((scale(b) + 149) as nat));
    assert(units(a) == if is_negative(a) {
        -units(x)
    } else {
        units(x)
    }) by (nonlinear_arith)
        requires
            units(a) == signed_significand(a) * pow2((scale(a) + 149) as nat),
            units(x) == significand(a) * pow2((scale(a) + 149) as nat),
            signed_significand(a) == if is_negative(a) {
                -significand(a)
            } else {
                significand(a)
            },
    ;
    assert(units(b) == if is_negative(b) {
        -units(y)
    } else {
        units(y)
    }) by (nonlinear_arith)
        requires
            units(b) == signed_significand(b) * pow2((scale(b) + 149) as nat),
            units(y) == significand(b) * pow2((scale(b) + 149) as nat),
            signed_significand(b) == if is_negative(b) {
                -significand(b)
            } else {
                significand(b)
            },
    ;
    assert(0 <= units(x)) by (nonlinear_arith)
        requires
            units(x) == significand(a) * pow2((scale(a) + 149) as nat),
            0 <= significand(a),
    ;
    assert(0 <= units(y)) by (nonlinear_arith)
        requires
            units(y) == significand(b) * pow2((scale(b) + 149) as nat),
            0 <= significand(b),
    ;
    if x < y {
        lemma_positive_order(x, y);
    } else if y < x {
        lemma_positive_order(y, x);
    }
    if y > 0 {
        lemma_positive_order(0, y);
        assert(units(0) == 0) by (nonlinear_arith)
            requires
                units(0) == 0 * pow2((scale(0) + 149) as nat),
        ;
    }
    if x > 0 {
        lemma_positive_order(0, x);
        assert(units(0) == 0) by (nonlinear_arith)
            requires
                units(0) == 0 * pow2((scale(0) + 149) as nat),
        ;
    }
}

/// Where the bounds cross, with `low` above `high`, every number clamps to
/// `low`. This covers positive zero as `low` over negative zero as `high`.
pub proof fn lemma_clamp_crossed_bounds(x: u32, low: u32, high: u32)
    requires
        !is_nan(x),
        !is_nan(low),
        !is_nan(high),
        order_key(low) > order_key(high),
    ensures
        clamp_of(x, low, high) == low,
{
}

/// Where the bounds are in order, a number between them is left as it is
/// and a number outside them becomes the bound that it lies beyond.
pub proof fn lemma_clamp_ordered_bounds(x: u32, low: u32, high: u32)
    requires
        !is_nan(x),
        !is_nan(low),
        !is_nan(high),
        order_key(low) <= order_key(high),
    ensures
        order_key(low) <= order_key(x) <= order_key(high) ==> clamp_of(x, low, high) == x,
        order_key(x) < order_key(low) ==> clamp_of(x, low, high) == low,
        order_key(x) > order_key(high) ==> clamp_of(x, low, high) == high,
{
}

/// A NaN operand always shows in the result: no operation here treats a NaN
/// as missing data and returns the other operand.
pub proof fn lemma_nan_propagates(a: u32, b: u32, c: u32)
    ensures
        is_nan(a) || is_nan(b) <==> is_nan(maximum_of(a, b)),
        is_nan(a) || is_nan(b) <==> is_nan(minimum_of(a, b)),
        is_nan(a) || is_nan(b) || is_nan(c) <==> is_nan(clamp_of(a, b, c)),
{
    lemma_quieted_nan(a);
    lemma_quieted_nan(b);
    lemma_quieted_nan(c);
    lemma_quieted_nan(minimum_of(a, c));
}

/// Between numbers, the larger and the smaller do not depend on the order
/// of the operands, and together they are the two operands.
pub proof fn lemma_maximum_minimum_commute(a: u32, b: u32)
    requires
        !is_nan(a),
        !is_nan(b),
    ensures
        maximum_of(a, b) == maximum_of(b, a),
        minimum_of(a, b) == minimum_of(b, a),
        maximum_of(a, b) == a && minimum_of(a, b) == b || maximum_of(a, b) == b && minimum_of(
            a,
            b,
        ) == a,
{
}

} // verus!
