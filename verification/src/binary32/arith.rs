//! Sums, differences and products of single-precision numbers, from pattern
//! to pattern.
//!
//! Each result is the exact result rounded once to the nearest
//! single-precision number, ties to even. Results beyond the largest finite
//! number are infinite. A NaN operand gives a NaN; so do the sum of two
//! opposite infinities and the product of zero and infinity.

use vstd::prelude::*;
use vstd::arithmetic::power2::{
    lemma2_to64, lemma2_to64_rest, lemma_pow2_adds, lemma_pow2_pos, pow2,
};
use crate::binary32::nan::{check_nan, propagate, propagated_nan};
use crate::binary32::round::{
    half_even, is_quantum, lemma_pow2_monotone, lemma_quantum_unique, round_pack, rounded,
    significand_at, two_to,
};
use crate::binary32::sign::negate;
use crate::binary32::{
    is_finite, is_infinite, is_nan, is_negative, is_zero, magnitude_bits, negated, packed, scale,
    signed_significand, significand, DEFAULT_NAN, HIDDEN, INFINITY, SIGN,
};

verus! {

/// The pattern of the single-precision number nearest to `total * 2^e`,
/// for a `total` other than zero, with its sign.
pub open spec fn signed_rounded(total: int, e: int) -> u32 {
    if total > 0 {
        rounded(total, e) as u32
    } else {
        (SIGN + rounded(-total, e)) as u32
    }
}

/// The sign bit of a product: set where the signs of the factors differ.
pub open spec fn product_sign(a: u32, b: u32) -> int {
    if is_negative(a) != is_negative(b) {
        SIGN as int
    } else {
        0
    }
}

/// The exact sum of two finite numbers: the sum of the two signed
/// significands taken at the lower of the two scales, and that scale.
pub open spec fn exact_sum(x: u32, y: u32) -> (int, int) {
    let low = if scale(x) <= scale(y) {
        scale(x)
    } else {
        scale(y)
    };
    (
        signed_significand(x) * pow2((scale(x) - low) as nat) + signed_significand(y) * pow2(
            (scale(y) - low) as nat,
        ),
        low,
    )
}

/// The pattern of the sum of the numbers with patterns `a` and `b`.
///
/// * A NaN operand gives a NaN.
/// * Two infinities of opposite sign give the default NaN; otherwise an
///   infinite operand is the sum.
/// * An exact sum of zero is positive zero, unless both operands are
///   negative zero.
/// * Any other sum is the exact sum rounded to nearest.
pub open spec fn plus_of(a: u32, b: u32) -> u32 {
    if is_nan(a) || is_nan(b) {
        propagated_nan(a, b)
    } else if is_infinite(a) {
        if is_infinite(b) && a != b {
            DEFAULT_NAN
        } else {
            a
        }
    } else if is_infinite(b) {
        b
    } else if exact_sum(a, b).0 == 0 {
        if is_negative(a) && is_negative(b) {
            SIGN
        } else {
            0
        }
    } else {
        signed_rounded(exact_sum(a, b).0, exact_sum(a, b).1)
    }
}

/// The pattern of the difference of the numbers with patterns `a` and `b`:
/// the sum of `a` and the opposite of `b`, except that a NaN keeps its sign.
pub open spec fn minus_of(a: u32, b: u32) -> u32 {
    if is_nan(a) || is_nan(b) {
        propagated_nan(a, b)
    } else {
        plus_of(a, negated(b))
    }
}

/// The pattern of the product of the numbers with patterns `a` and `b`.
///
/// * A NaN operand gives a NaN.
/// * Zero times infinity gives the default NaN.
/// * Any other product has the sign that the two signs give. It is
///   infinite if an operand is, zero if an operand is, and otherwise the
///   exact product rounded to nearest.
pub open spec fn times_of(a: u32, b: u32) -> u32 {
    if is_nan(a) || is_nan(b) {
        propagated_nan(a, b)
    } else if (is_infinite(a) && is_zero(b)) || (is_zero(a) && is_infinite(b)) {
        DEFAULT_NAN
    } else if is_infinite(a) || is_infinite(b) {
        (product_sign(a, b) + INFINITY) as u32
    } else if is_zero(a) || is_zero(b) {
        product_sign(a, b) as u32
    } else {
        (product_sign(a, b) + rounded(significand(a) * significand(b), scale(a) + scale(b)))
            as u32
    }
}

/// The significand of a finite number.
fn significand_of(bits: u32) -> (m: u64)
    requires
        is_finite(bits),
    ensures
        m == significand(bits),
        m < 0x100_0000,
        !is_zero(bits) ==> m >= 1,
        scale(bits) > -149 ==> m >= 0x80_0000,
{
    let magnitude = bits % SIGN;
    let field = magnitude / HIDDEN;
    let fraction = magnitude % HIDDEN;
    if field == 0 {
        fraction as u64
    } else {
        (HIDDEN + fraction) as u64
    }
}

/// The scale of a finite number.
fn scale_of(bits: u32) -> (e: i32)
    requires
        is_finite(bits),
    ensures
        e == scale(bits),
        -149 <= e <= 104,
{
    let field = (bits % SIGN) / HIDDEN;
    if field == 0 {
        -149
    } else {
        field as i32 - 150
    }
}

/// The significand of a finite number at the scale `low`, with its sign.
fn signed_wide(bits: u32, low: i32) -> (r: i64)
    requires
        is_finite(bits),
        -149 <= low <= scale(bits) <= low + 32,
    ensures
        r == signed_significand(bits) * pow2((scale(bits) - low) as nat),
        -0x100_0000_0000_0000 < r < 0x100_0000_0000_0000,
{
    let m = significand_of(bits);
    let unit = two_to((scale_of(bits) - low) as u32);
    proof {
        lemma_pow2_monotone((scale(bits) - low) as nat, 32);
        lemma2_to64();
    }
    assert(m * unit < 0x100_0000_0000_0000) by (nonlinear_arith)
        requires
            m < 0x100_0000,
            unit <= 0x1_0000_0000,
    ;
    let wide = m * unit;
    assert((-(m as int)) * unit == -(m * unit)) by (nonlinear_arith);
    if bits >= SIGN {
        -(wide as i64)
    } else {
        wide as i64
    }
}

/// The sum of two numbers, rounded to nearest.
pub fn plus(a: u32, b: u32) -> (r: u32)
    ensures
        r == plus_of(a, b),
{
    if check_nan(a) || check_nan(b) {
        return propagate(a, b);
    }
    if a % SIGN == INFINITY {
        return if b % SIGN == INFINITY && a != b {
            DEFAULT_NAN
        } else {
            a
        };
    }
    if b % SIGN == INFINITY {
        return b;
    }
    let ea = scale_of(a);
    let eb = scale_of(b);
    if ea - eb > 32 {
        proof {
            lemma_far_sum(a, b);
        }
        return a;
    }
    if eb - ea > 32 {
        proof {
            lemma_far_sum(b, a);
        }
        return b;
    }
    let low = if ea <= eb {
        ea
    } else {
        eb
    };
    let total = signed_wide(a, low) + signed_wide(b, low);
    if total == 0 {
        if a >= SIGN && b >= SIGN {
            SIGN
        } else {
            0
        }
    } else if total > 0 {
        round_pack(total as u64, low)
    } else {
        SIGN + round_pack((-total) as u64, low)
    }
}

/// The difference of two numbers, rounded to nearest.
pub fn minus(a: u32, b: u32) -> (r: u32)
    ensures
        r == minus_of(a, b),
{
    if check_nan(a) || check_nan(b) {
        return propagate(a, b);
    }
    plus(a, negate(b))
}

/// The product of two finite numbers other than zero, without its sign.
fn times_magnitude(a: u32, b: u32) -> (r: u32)
    requires
        is_finite(a),
        is_finite(b),
        !is_zero(a),
        !is_zero(b),
    ensures
        r == rounded(significand(a) * significand(b), scale(a) + scale(b)),
        r <= INFINITY,
{
    let ma = significand_of(a);
    let mb = significand_of(b);
    assert(1 <= ma * mb < 0x1_0000_0000_0000) by (nonlinear_arith)
        requires
            1 <= ma < 0x100_0000,
            1 <= mb < 0x100_0000,
    ;
    round_pack(ma * mb, scale_of(a) + scale_of(b))
}

/// The product of two numbers, rounded to nearest.
pub fn times(a: u32, b: u32) -> (r: u32)
    ensures
        r == times_of(a, b),
{
    if check_nan(a) || check_nan(b) {
        return propagate(a, b);
    }
    let a_infinite = a % SIGN == INFINITY;
    let b_infinite = b % SIGN == INFINITY;
    let a_zero = a % SIGN == 0;
    let b_zero = b % SIGN == 0;
    let sign = if (a >= SIGN) != (b >= SIGN) {
        SIGN
    } else {
        0
    };
    if (a_infinite && b_zero) || (a_zero && b_infinite) {
        DEFAULT_NAN
    } else if a_infinite || b_infinite {
        sign + INFINITY
    } else if a_zero || b_zero {
        sign
    } else {
        sign + times_magnitude(a, b)
    }
}

/// A 24-bit significand `m` at the scale `e`, moved by less than `2^24` at
/// a scale more than 32 places lower, rounds back to `m` at the scale `e`,
/// provided the sum stays in the binade of `m * 2^e`.
proof fn lemma_far_rounded_within(size: int, m: int, floor: int, e: int, f: int)
    requires
        -149 <= f,
        32 < e - f,
        e <= 104,
        0x80_0000 <= m < 0x100_0000,
        floor == m || floor == m - 1,
        floor * pow2((e - f) as nat) <= size < (floor + 1) * pow2((e - f) as nat),
        floor == m ==> size - m * pow2((e - f) as nat) < 0x100_0000,
        floor == m - 1 ==> m * pow2((e - f) as nat) - size < 0x100_0000,
        0x80_0000 * pow2((e - f) as nat) <= size,
    ensures
        rounded(size, f) == packed(m, e),
{
    let gap = (e - f) as nat;
    let unit = pow2(gap) as int;
    let base = pow2((f + 298) as nat) as int;
    lemma2_to64_rest();
    lemma_pow2_monotone(33, gap);
    lemma_pow2_pos((f + 298) as nat);
    lemma_pow2_adds(gap, (f + 298) as nat);
    assert((floor + 1) * unit <= 0x100_0000 * unit) by (nonlinear_arith)
        requires
            floor + 1 <= 0x100_0000,
            0 < unit,
    ;
    assert(size * base < 0x100_0000 * (unit * base) && 0x80_0000 * (unit * base) <= size * base)
        by (nonlinear_arith)
        requires
            0x80_0000 * unit <= size < 0x100_0000 * unit,
            0 < base,
    ;
    assert(is_quantum(e, size, f));
    lemma_quantum_unique(e, size, f);
    let rest = size - floor * unit;
    assert((floor + 1) * unit == floor * unit + unit) by (nonlinear_arith);
    assert(size / unit == floor && size % unit == rest) by (nonlinear_arith)
        requires
            size == floor * unit + rest,
            0 <= rest < unit,
    ;
    assert(m * unit == floor * unit + (m - floor) * unit) by (nonlinear_arith);
    assert(half_even(size, unit) == m);
    assert(significand_at(e, size, f) == m);
}

/// The significand `2^23` at the scale `e`, lowered by less than `2^24` at
/// a scale more than 32 places lower, falls into the binade below, where
/// numbers lie twice as close together, and still rounds back to
/// `2^23 * 2^e`.
proof fn lemma_far_rounded_below(size: int, n: int, e: int, f: int)
    requires
        -149 <= f,
        32 < e - f,
        e <= 104,
        0 < n < 0x100_0000,
        size == 0x80_0000 * pow2((e - f) as nat) - n,
    ensures
        rounded(size, f) == packed(0x80_0000, e),
{
    let gap = (e - f) as nat;
    let half = pow2((gap - 1) as nat) as int;
    let base = pow2((f + 298) as nat) as int;
    lemma2_to64();
    lemma2_to64_rest();
    lemma_pow2_monotone(32, (gap - 1) as nat);
    lemma_pow2_adds(1, (gap - 1) as nat);
    lemma_pow2_pos((f + 298) as nat);
    lemma_pow2_adds((gap - 1) as nat, (f + 298) as nat);
    assert(size == 0x100_0000 * half - n);
    assert(size * base < 0x100_0000 * (half * base) && 0x80_0000 * (half * base) <= size * base)
        by (nonlinear_arith)
        requires
            size == 0x100_0000 * half - n,
            0 < n < 0x100_0000,
            half >= 0x1_0000_0000,
            0 < base,
    ;
    assert(is_quantum(e - 1, size, f));
    lemma_quantum_unique(e - 1, size, f);
    let rest = half - n;
    assert(size / half == 0x100_0000 - 1 && size % half == rest) by (nonlinear_arith)
        requires
            size == (0x100_0000 - 1) * half + rest,
            0 <= rest < half,
    ;
    assert(half_even(size, half) == 0x100_0000);
    assert(significand_at(e - 1, size, f) == 0x100_0000);
}

/// A significand `m` at the scale `e`, raised or lowered by `n` at a scale
/// more than 32 places lower, rounds back to `m` at the scale `e`.
proof fn lemma_far_rounded(m: int, n: int, raised: bool, e: int, f: int)
    requires
        -149 <= f,
        32 < e - f,
        e <= 104,
        0x80_0000 <= m < 0x100_0000,
        0 <= n < 0x100_0000,
    ensures
        rounded(
            if raised {
                m * pow2((e - f) as nat) + n
            } else {
                m * pow2((e - f) as nat) - n
            },
            f,
        ) == packed(m, e),
{
    let unit = pow2((e - f) as nat) as int;
    lemma2_to64_rest();
    lemma_pow2_monotone(33, (e - f) as nat);
    assert(m * unit >= 0x80_0000 * unit && (m + 1) * unit == m * unit + unit && (m - 1) * unit
        == m * unit - unit) by (nonlinear_arith)
        requires
            0x80_0000 <= m,
            unit > 0,
    ;
    if raised || n == 0 {
        lemma_far_rounded_within(m * unit + n, m, m, e, f);
    } else if m > 0x80_0000 {
        assert((m - 1) * unit >= 0x80_0000 * unit) by (nonlinear_arith)
            requires
                m - 1 >= 0x80_0000,
                unit > 0,
        ;
        lemma_far_rounded_within(m * unit - n, m, m - 1, e, f);
    } else {
        lemma_far_rounded_below(m * unit - n, n, e, f);
    }
}

/// Where one operand lies more than 32 binary places above the other, the
/// other is less than a quarter of a unit in its last place, and the sum
/// rounds back to the larger operand.
pub proof fn lemma_far_sum(high: u32, low: u32)
    requires
        is_finite(high),
        is_finite(low),
        scale(high) - scale(low) > 32,
    ensures
        plus_of(high, low) == high,
        plus_of(low, high) == high,
{
    let m = significand(high);
    let e = scale(high);
    let n = significand(low);
    let f = scale(low);
    let unit = pow2((e - f) as nat) as int;
    lemma2_to64();
    lemma2_to64_rest();
    lemma_pow2_monotone(33, (e - f) as nat);
    assert(n * pow2(0) == n && (-n) * pow2(0) == -n) by (nonlinear_arith)
        requires
            pow2(0) == 1,
    ;
    assert(m * unit >= 0x80_0000 * unit && (-m) * unit == -(m * unit)) by (nonlinear_arith)
        requires
            0x80_0000 <= m,
            unit > 0,
    ;
    let raised = is_negative(high) == is_negative(low);
    lemma_far_rounded(m, n, raised, e, f);
    let size = if raised {
        m * unit + n
    } else {
        m * unit - n
    };
    let total = signed_significand(high) * unit + signed_significand(low) * pow2(0);
    assert(total == if is_negative(high) {
        -size
    } else {
        size
    });
    assert(magnitude_bits(high) == packed(m, e));
}

} // verus!
