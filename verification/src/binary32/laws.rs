//! Laws of the arithmetic on single patterns: what holds of sums, products
//! and roots whatever the operands.

use vstd::prelude::*;
use vstd::arithmetic::power2::{lemma_pow2_adds, lemma_pow2_pos, pow2};
use crate::binary32::arith::exact_sum;
use crate::binary32::nan::lemma_quieted_nan;
use crate::binary32::root::lemma_root_correctly_rounded;
use crate::binary32::round::{lemma_rounded_exact, lemma_rounded_range};
use crate::binary32::{
    is_finite, is_nan, is_negative, is_zero, lemma_magnitude_fields, minus_of, negated, plus_of,
    scale, signed_significand, significand, sqrt_of, times_of, units, SIGN,
};

verus! {

/// The product of two numbers does not depend on their order.
pub proof fn lemma_times_commutes(a: u32, b: u32)
    requires
        !is_nan(a),
        !is_nan(b),
    ensures
        times_of(a, b) == times_of(b, a),
{
    assert(significand(a) * significand(b) == significand(b) * significand(a))
        by (nonlinear_arith);
}

/// The sum of two numbers does not depend on their order.
pub proof fn lemma_plus_commutes(a: u32, b: u32)
    requires
        !is_nan(a),
        !is_nan(b),
    ensures
        plus_of(a, b) == plus_of(b, a),
{
}

/// Two patterns stand for the same result: they are one pattern, or both
/// are NaNs, which differ at most in their payload.
pub open spec fn same_result(x: u32, y: u32) -> bool {
    x == y || (is_nan(x) && is_nan(y))
}

/// The product of two operands does not depend on their order, except that
/// of two NaN operands either may be the one returned.
pub proof fn lemma_times_commutes_up_to_nan(a: u32, b: u32)
    ensures
        same_result(times_of(a, b), times_of(b, a)),
{
    lemma_quieted_nan(a);
    lemma_quieted_nan(b);
    if !is_nan(a) && !is_nan(b) {
        lemma_times_commutes(a, b);
    }
}

/// Sums of operands that stand for the same results stand for the same
/// result.
pub proof fn lemma_plus_same_result(x: u32, y: u32, u: u32, v: u32)
    requires
        same_result(x, u),
        same_result(y, v),
    ensures
        same_result(plus_of(x, y), plus_of(u, v)),
{
    lemma_quieted_nan(x);
    lemma_quieted_nan(y);
    lemma_quieted_nan(u);
    lemma_quieted_nan(v);
}

/// The sum of `a` and `b` is exact: it is a finite number, and its value is
/// the sum of the two values, with nothing lost to rounding.
pub open spec fn is_exact_sum(a: u32, b: u32) -> bool {
    &&& is_finite(a)
    &&& is_finite(b)
    &&& is_finite(plus_of(a, b))
    &&& units(plus_of(a, b)) == units(a) + units(b)
}

/// The exact sum has the value of the two operands together.
proof fn lemma_exact_sum_units(x: u32, y: u32)
    requires
        is_finite(x),
        is_finite(y),
    ensures
        exact_sum(x, y).0 * pow2((exact_sum(x, y).1 + 149) as nat) == units(x) + units(y),
        -149 <= exact_sum(x, y).1,
{
    let low = exact_sum(x, y).1;
    let base = pow2((low + 149) as nat) as int;
    let up_x = pow2((scale(x) - low) as nat) as int;
    let up_y = pow2((scale(y) - low) as nat) as int;
    lemma_pow2_adds((scale(x) - low) as nat, (low + 149) as nat);
    lemma_pow2_adds((scale(y) - low) as nat, (low + 149) as nat);
    assert((signed_significand(x) * up_x + signed_significand(y) * up_y) * base
        == signed_significand(x) * (up_x * base) + signed_significand(y) * (up_y * base))
        by (nonlinear_arith);
}

/// A sum whose exact value is that of a finite number `t` other than zero
/// is `t` itself.
pub proof fn lemma_plus_exact(x: u32, y: u32, t: u32)
    requires
        is_finite(x),
        is_finite(y),
        is_finite(t),
        !is_zero(t),
        units(x) + units(y) == units(t),
    ensures
        plus_of(x, y) == t,
{
    let total = exact_sum(x, y).0;
    let low = exact_sum(x, y).1;
    lemma_exact_sum_units(x, y);
    let base = pow2((low + 149) as nat) as int;
    let high = pow2((scale(t) + 149) as nat) as int;
    lemma_pow2_pos((low + 149) as nat);
    lemma_pow2_pos((scale(t) + 149) as nat);
    let size = if total > 0 {
        total
    } else {
        -total
    };
    assert(1 <= significand(t));
    assert(size >= 1 && (total > 0 <==> !is_negative(t)) && size * base == significand(t) * high)
        by (nonlinear_arith)
        requires
            total * base == signed_significand(t) * high,
            signed_significand(t) == if is_negative(t) {
                -significand(t)
            } else {
                significand(t)
            },
            1 <= significand(t),
            0 < base,
            0 < high,
            size == if total > 0 {
                total
            } else {
                -total
            },
    ;
    lemma_rounded_exact(size, low, significand(t), scale(t));
    lemma_magnitude_fields(t);
}

/// A finite number below zero has no positive value, and one that is not
/// below zero has no negative value.
proof fn lemma_units_sign(x: u32)
    requires
        is_finite(x),
    ensures
        is_negative(x) ==> units(x) <= 0,
        !is_negative(x) ==> units(x) >= 0,
        units(x) == 0 <==> is_zero(x),
        units(negated(x)) == -units(x),
        is_finite(negated(x)),
        is_negative(negated(x)) == !is_negative(x),
{
    let unit = pow2((scale(x) + 149) as nat) as int;
    lemma_pow2_pos((scale(x) + 149) as nat);
    assert((significand(x) * unit > 0 <==> significand(x) > 0) && significand(x) * unit >= 0 && (
    -significand(x)) * unit == -(significand(x) * unit)) by (nonlinear_arith)
        requires
            0 <= significand(x),
            0 < unit,
    ;
    assert(significand(negated(x)) == significand(x));
    assert(scale(negated(x)) == scale(x));
}

/// The sum of two zeros is negative zero only if both are.
proof fn lemma_zero_sum(a: u32, b: u32)
    requires
        is_zero(a),
        is_zero(b),
    ensures
        plus_of(a, b) == if is_negative(a) && is_negative(b) {
            SIGN
        } else {
            0
        },
{
    assert(0 * pow2(0) + 0 * pow2(0) == 0) by (nonlinear_arith);
}

/// Where a sum was exact, subtracting the second operand again restores the
/// first, to the last bit. Zero is restored as positive zero.
///
/// Where the sum was rounded there is no such law: the first operand may be
/// lost altogether, as 1 is in `(1 + 2^25) - 2^25`, which is zero.
pub proof fn lemma_exact_plus_then_minus(a: u32, b: u32)
    requires
        is_exact_sum(a, b),
    ensures
        minus_of(plus_of(a, b), b) == if is_zero(a) {
            0
        } else {
            a
        },
{
    let s = plus_of(a, b);
    let c = negated(b);
    lemma_units_sign(b);
    lemma_units_sign(a);
    lemma_units_sign(s);
    assert(minus_of(s, b) == plus_of(s, c));
    if is_zero(a) {
        // The sum is `b`, or positive zero for negative zero, and the
        // difference of two equal numbers is positive zero.
        lemma_exact_sum_units(s, c);
        lemma_pow2_pos((exact_sum(s, c).1 + 149) as nat);
        assert(exact_sum(s, c).0 == 0) by (nonlinear_arith)
            requires
                exact_sum(s, c).0 * pow2((exact_sum(s, c).1 + 149) as nat) == 0,
                0 < pow2((exact_sum(s, c).1 + 149) as nat),
        ;
        if is_zero(b) {
            lemma_zero_sum(a, b);
        }
    } else {
        lemma_plus_exact(s, c, a);
    }
}

/// The pattern is a number that is not below zero: positive zero, a
/// positive number or positive infinity.
pub open spec fn is_non_negative(b: u32) -> bool {
    !is_nan(b) && !is_negative(b)
}

/// A number times itself is not below zero, and a NaN times itself is a
/// NaN.
pub proof fn lemma_square_non_negative(x: u32)
    ensures
        is_nan(x) <==> is_nan(times_of(x, x)),
        !is_nan(x) ==> is_non_negative(times_of(x, x)),
{
    lemma_quieted_nan(x);
    if is_finite(x) && !is_zero(x) {
        assert(1 <= significand(x) * significand(x)) by (nonlinear_arith)
            requires
                1 <= significand(x),
        ;
        lemma_rounded_range(significand(x) * significand(x), scale(x) + scale(x));
    }
}

/// The sum of two numbers that are not below zero is not below zero, and a
/// sum with a NaN is a NaN.
pub proof fn lemma_plus_non_negative(a: u32, b: u32)
    requires
        is_nan(a) || is_non_negative(a),
        is_nan(b) || is_non_negative(b),
    ensures
        is_nan(a) || is_nan(b) <==> is_nan(plus_of(a, b)),
        is_nan(plus_of(a, b)) || is_non_negative(plus_of(a, b)),
{
    lemma_quieted_nan(a);
    lemma_quieted_nan(b);
    if is_finite(a) && is_finite(b) {
        let low = exact_sum(a, b).1;
        let wide_a = signed_significand(a) * pow2((scale(a) - low) as nat);
        let wide_b = signed_significand(b) * pow2((scale(b) - low) as nat);
        assert(0 <= wide_a) by (nonlinear_arith)
            requires
                wide_a == signed_significand(a) * pow2((scale(a) - low) as nat),
                0 <= signed_significand(a),
        ;
        assert(0 <= wide_b) by (nonlinear_arith)
            requires
                wide_b == signed_significand(b) * pow2((scale(b) - low) as nat),
                0 <= signed_significand(b),
        ;
        if wide_a + wide_b > 0 {
            lemma_rounded_range(wide_a + wide_b, low);
        }
    }
}

/// The root of a number that is not below zero is not below zero, and the
/// root of a NaN is a NaN.
pub proof fn lemma_sqrt_non_negative(x: u32)
    requires
        is_nan(x) || is_non_negative(x),
    ensures
        is_nan(x) <==> is_nan(sqrt_of(x)),
        is_nan(sqrt_of(x)) || is_non_negative(sqrt_of(x)),
{
    lemma_quieted_nan(x);
    if is_finite(x) && !is_zero(x) && !is_nan(x) {
        lemma_root_correctly_rounded(x);
    }
}

} // verus!
