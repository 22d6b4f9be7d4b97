//! A fast estimate of the reciprocal of a single-precision number.
//!
//! The estimate is read off the leading nine bits of the significand and
//! carries eight bits of its own. It is a starting value, good to about one
//! part in 256, and is not refined here: a caller that needs more applies
//! Newton-Raphson steps itself.

use vstd::prelude::*;
use vstd::arithmetic::power2::{lemma2_to64, lemma2_to64_rest, pow2};
use crate::binary32::{
    abs_of, is_nan, lemma_magnitude_fields, magnitude_bits, packed, quieted, scale,
    significand, HIDDEN, INFINITY, QUIET, SIGN,
};

verus! {

/// The magnitude below which a reciprocal is too large to represent and the
/// estimate is infinite: the pattern of `2^-128`.
pub const TINY: u32 = 0x0020_0000;

/// The sign bit of a pattern, in place.
pub open spec fn sign_bits(b: u32) -> int {
    b - magnitude_bits(b)
}

/// The leading nine bits of the significand of a positive number of at
/// least `2^-128`, once it has been shifted until its highest bit is set: a
/// value from 256 to 511 that stands for a number from 1/2 up to 1 in steps
/// of 1/512.
pub open spec fn leading_nine(m: u32) -> int {
    if m >= HIDDEN {
        (HIDDEN + m % HIDDEN) / 0x8000
    } else if m >= QUIET {
        m as int / 0x4000
    } else {
        m as int / 0x2000
    }
}

/// The scale that goes with a significand shifted until its highest bit is
/// set: the positive number with pattern `m` is `s * 2^shifted_scale(m)`
/// with `2^23 <= s < 2^24`.
pub open spec fn shifted_scale(m: u32) -> int {
    if m >= HIDDEN {
        m as int / 0x80_0000 - 150
    } else if m >= QUIET {
        -150
    } else {
        -151
    }
}

/// The eight-bit estimate of the reciprocal of the nine-bit value `a`.
///
/// `a` stands for the interval from `a / 512` to `(a + 1) / 512`, whose
/// midpoint is `(2a + 1) / 1024`. The result `r`, from 256 to 511, stands
/// for `r / 256` and is the reciprocal of that midpoint, rounded in two
/// steps of one bit each.
pub open spec fn estimate_step(a: int) -> int {
    (0x8_0000int / (2 * a + 1) + 1) / 2
}

/// The pattern of the positive number `r * 2^15 * 2^k`, for an estimate
/// `256 <= r < 512` and `-151 <= k <= 104`. Below `k = -149` the number is
/// subnormal; its significand loses one or two of its low bits, which are
/// zero.
pub open spec fn estimate_pattern(r: int, k: int) -> int {
    if k >= -149 {
        packed(r * 0x8000, k)
    } else if k == -150 {
        r * 0x4000
    } else {
        r * 0x2000
    }
}

/// The pattern of the reciprocal estimate of the positive number with
/// pattern `m`, from `2^-128` up to the largest finite number.
///
/// The number is `s * 2^e` with `2^23 <= s < 2^24`; the estimate is
/// `r * 2^(-e - 32)`, where `r` is the eight-bit estimate for the leading
/// nine bits of `s`.
pub open spec fn estimate_of_magnitude(m: u32) -> int {
    estimate_pattern(estimate_step(leading_nine(m)), -shifted_scale(m) - 47)
}

/// The pattern of the reciprocal estimate of the number with pattern `b`.
///
/// * A NaN gives the same NaN, made quiet.
/// * An infinity gives zero of the same sign.
/// * Zero, and any number of magnitude below `2^-128`, gives infinity of the
///   same sign.
/// * Any other number gives the estimate for its magnitude, with its sign.
pub open spec fn recip_estimate_of(b: u32) -> u32 {
    if is_nan(b) {
        quieted(b)
    } else if magnitude_bits(b) == INFINITY {
        sign_bits(b) as u32
    } else if magnitude_bits(b) < TINY {
        (sign_bits(b) + INFINITY) as u32
    } else {
        (sign_bits(b) + estimate_of_magnitude(abs_of(b))) as u32
    }
}

/// The estimate for nine leading bits has eight bits after its leading one.
pub proof fn lemma_estimate_step_range(a: int)
    requires
        256 <= a < 512,
    ensures
        256 <= estimate_step(a) < 512,
{
    let d = 2 * a + 1;
    let b = 0x8_0000int / d;
    assert(511 <= b <= 1022) by (nonlinear_arith)
        requires
            513 <= d <= 1023,
            b == 0x8_0000int / d,
    ;
}

/// The estimate is good to eight bits: whatever number the nine bits `a`
/// are the leading bits of, from `a / 512` up to `(a + 1) / 512`, its
/// product with the estimate `r / 256` lies within `2^-8` of 1.
pub proof fn lemma_estimate_step_accuracy(a: int)
    requires
        256 <= a < 512,
    ensures
        0x2_0000 - 0x200 <= a * estimate_step(a),
        (a + 1) * estimate_step(a) <= 0x2_0000 + 0x200,
{
    let d = 2 * a + 1;
    let b = 0x8_0000int / d;
    let r = (b + 1) / 2;
    lemma_estimate_step_range(a);
    assert(b * d <= 0x8_0000 < (b + 1) * d) by (nonlinear_arith)
        requires
            513 <= d,
            b == 0x8_0000int / d,
    ;
    assert(2 * r <= b + 1 <= 2 * r + 1);
    assert(2 * r * d <= 0x8_0000 + d) by (nonlinear_arith)
        requires
            2 * r <= b + 1,
            b * d <= 0x8_0000,
            d > 0,
    ;
    assert((2 * r + 1) * d > 0x8_0000) by (nonlinear_arith)
        requires
            b + 1 <= 2 * r + 1,
            0x8_0000 < (b + 1) * d,
            d > 0,
    ;
    assert(4 * ((a + 1) * r) == 2 * r * d + 2 * r) by (nonlinear_arith)
        requires
            d == 2 * a + 1,
    ;
    assert(4 * (a * r) == (2 * r + 1) * d - d - 2 * r) by (nonlinear_arith)
        requires
            d == 2 * a + 1,
    ;
}

/// A significand `m` whose leading bits are `a`, times the estimate for `a`,
/// stays within the bounds that hold of `a` itself.
proof fn lemma_scaled_product(m: int, a: int, unit: int, r: int)
    requires
        0 < unit,
        0 < r,
        a * unit <= m < (a + 1) * unit,
        0x2_0000 - 0x200 <= a * r,
        (a + 1) * r <= 0x2_0000 + 0x200,
    ensures
        (0x2_0000 - 0x200) * unit <= m * r,
        m * r <= (0x2_0000 + 0x200) * unit,
{
    assert((a * unit) * r <= m * r) by (nonlinear_arith)
        requires
            a * unit <= m,
            0 < r,
    ;
    assert(m * r <= ((a + 1) * unit) * r) by (nonlinear_arith)
        requires
            m < (a + 1) * unit,
            0 < r,
    ;
    assert((a * unit) * r == (a * r) * unit) by (nonlinear_arith);
    assert(((a + 1) * unit) * r == ((a + 1) * r) * unit) by (nonlinear_arith);
    assert((0x2_0000 - 0x200) * unit <= (a * r) * unit) by (nonlinear_arith)
        requires
            0x2_0000 - 0x200 <= a * r,
            0 < unit,
    ;
    assert(((a + 1) * r) * unit <= (0x2_0000 + 0x200) * unit) by (nonlinear_arith)
        requires
            (a + 1) * r <= 0x2_0000 + 0x200,
            0 < unit,
    ;
}

/// The leading nine bits of a magnitude are nine bits, and they are the
/// leading bits of its significand: `unit` is the weight of the lowest of
/// them.
proof fn lemma_leading_nine(m: u32) -> (unit: int)
    requires
        TINY <= m < INFINITY,
    ensures
        256 <= leading_nine(m) < 512,
        unit == 0x8000 || unit == 0x4000 || unit == 0x2000,
        leading_nine(m) * unit <= significand(m) < (leading_nine(m) + 1) * unit,
        unit * pow2((scale(m) - shifted_scale(m)) as nat) == 0x8000,
        0 <= scale(m) - shifted_scale(m) <= 2,
        -151 <= shifted_scale(m) <= 104,
{
    lemma2_to64();
    if m >= HIDDEN {
        0x8000
    } else if m >= QUIET {
        0x4000
    } else {
        0x2000
    }
}

/// The significand and the scale of an estimate, read back from its
/// pattern: `kept` is the weight that the lowest bit of the estimate has in
/// the significand.
proof fn lemma_estimate_pattern(r: int, k: int) -> (kept: int)
    requires
        256 <= r < 512,
        -151 <= k <= 104,
    ensures
        0 < estimate_pattern(r, k) < INFINITY,
        kept == 0x8000 || kept == 0x4000 || kept == 0x2000,
        significand(estimate_pattern(r, k) as u32) == r * kept,
        kept * pow2((scale(estimate_pattern(r, k) as u32) - k) as nat) == 0x8000,
        0 <= scale(estimate_pattern(r, k) as u32) - k <= 2,
{
    lemma2_to64();
    if k >= -149 {
        0x8000
    } else if k == -150 {
        0x4000
    } else {
        0x2000
    }
}

/// The estimate of a positive number of at least `2^-128` is a positive
/// finite number, and the product of the two differs from 1 by at most
/// `2^-8`.
proof fn lemma_estimate_of_magnitude(m: u32)
    requires
        TINY <= m < INFINITY,
    ensures
        ({
            let r = estimate_of_magnitude(m) as u32;
            let p = significand(m) * significand(r);
            let n = -(scale(m) + scale(r));
            &&& 0 < estimate_of_magnitude(m) < INFINITY
            &&& 45 <= n <= 47
            &&& 255 * pow2(n as nat) <= 256 * p
            &&& 256 * p <= 257 * pow2(n as nat)
        }),
{
    let a = leading_nine(m);
    let unit = lemma_leading_nine(m);
    let est = estimate_step(a);
    lemma_estimate_step_range(a);
    lemma_estimate_step_accuracy(a);
    lemma_scaled_product(significand(m), a, unit, est);
    let k = -shifted_scale(m) - 47;
    let kept = lemma_estimate_pattern(est, k);
    let r = estimate_of_magnitude(m) as u32;
    let n = -(scale(m) + scale(r));
    // 2^n, the weight of 1 in the product of the two significands, is
    // 2^17 * unit * kept.
    let lost = (scale(m) - shifted_scale(m)) + (scale(r) - k);
    assert(n == 47 - lost);
    lemma2_to64();
    lemma2_to64_rest();
    let whole = pow2(n as nat) as int;
    assert(whole == 0x2_0000 * (unit * kept));
    let p = significand(m) * (est * kept);
    assert(255 * (0x2_0000 * (unit * kept)) <= 256 * p && 256 * p <= 257 * (0x2_0000 * (unit
        * kept))) by (nonlinear_arith)
        requires
            p == significand(m) * (est * kept),
            0 < kept,
            (0x2_0000 - 0x200) * unit <= significand(m) * est,
            significand(m) * est <= (0x2_0000 + 0x200) * unit,
    ;
}

/// The estimate of a finite number of magnitude `2^-128` or more is a finite
/// number of the same sign, and the product of the two differs from 1 by at
/// most `2^-8`.
///
/// With `p` the product of the two significands and `-n` the sum of the two
/// scales, the product of the two numbers is `p / 2^n`, and the bound reads
/// `255/256 <= p / 2^n <= 257/256`.
pub proof fn lemma_recip_estimate_accuracy(b: u32)
    requires
        TINY <= magnitude_bits(b) < INFINITY,
    ensures
        ({
            let r = recip_estimate_of(b);
            let p = significand(b) * significand(r);
            let n = -(scale(b) + scale(r));
            &&& sign_bits(r) == sign_bits(b)
            &&& 0 < magnitude_bits(r) < INFINITY
            &&& 45 <= n <= 47
            &&& 255 * pow2(n as nat) <= 256 * p
            &&& 256 * p <= 257 * pow2(n as nat)
        }),
{
    let m = abs_of(b);
    lemma_magnitude_fields(b);
    lemma_estimate_of_magnitude(m);
    let r = recip_estimate_of(b);
    assert(abs_of(r) == estimate_of_magnitude(m) as u32);
    lemma_magnitude_fields(r);
}

/// The reciprocal estimate of a positive number of at least `2^-128`.
fn estimate_magnitude(m: u32) -> (r: u32)
    requires
        TINY <= m < INFINITY,
    ensures
        r == estimate_of_magnitude(m),
        0 < r < INFINITY,
{
    let lead: u32 = if m >= HIDDEN {
        (HIDDEN + m % HIDDEN) / 0x8000
    } else if m >= QUIET {
        m / 0x4000
    } else {
        m / 0x2000
    };
    // One more than the exponent of the shifted significand, to stay unsigned.
    let down: u32 = if m >= HIDDEN {
        m / HIDDEN + 1
    } else if m >= QUIET {
        1
    } else {
        0
    };
    proof {
        lemma_estimate_step_range(lead as int);
    }
    let estimate: u32 = (0x8_0000 / (2 * lead + 1) + 1) / 2;
    let up: u32 = 255 - down;
    if up >= 2 {
        (up - 2) * HIDDEN + estimate * 0x8000
    } else if up == 1 {
        estimate * 0x4000
    } else {
        estimate * 0x2000
    }
}

/// The reciprocal estimate of a single-precision number, from pattern to
/// pattern, with about eight bits of accuracy.
pub fn recip_estimate(b: u32) -> (r: u32)
    ensures
        r == recip_estimate_of(b),
{
    let magnitude = b % SIGN;
    let sign = b - magnitude;
    if magnitude > INFINITY {
        if b % HIDDEN < QUIET {
            b + QUIET
        } else {
            b
        }
    } else if magnitude == INFINITY {
        sign
    } else if magnitude < TINY {
        sign + INFINITY
    } else {
        sign + estimate_magnitude(magnitude)
    }
}

} // verus!
