//! Single-precision numbers of IEEE 754, handled as their 32-bit patterns.
//!
//! A pattern is a sign bit, eight bits of biased exponent and twenty-three
//! bits of fraction. This module reads patterns with integer arithmetic
//! alone and states what it computes over the unbounded integers: a positive
//! finite pattern `b` stands for the number `significand(b) * 2^scale(b)`.

use vstd::prelude::*;
use vstd::arithmetic::power2::pow2;

pub mod arith;
pub mod laws;
pub mod nan;
pub mod order;
pub mod reciprocal;
pub mod root;
pub mod round;
pub mod sign;

pub use arith::{minus, minus_of, plus, plus_of, times, times_of};
pub use order::{clamp, clamp_of, maximum, maximum_of, minimum, minimum_of};
pub use reciprocal::{recip_estimate, recip_estimate_of};
pub use root::{sqrt, sqrt_of};
pub use sign::{abs, negate};

verus! {

/// The pattern with only the sign bit set: negative zero.
pub const SIGN: u32 = 0x8000_0000;

/// The pattern of positive infinity: exponent all ones, fraction zero.
pub const INFINITY: u32 = 0x7F80_0000;

/// The highest fraction bit, which tells a quiet NaN from a signalling one.
pub const QUIET: u32 = 0x0040_0000;

/// The NaN that an invalid operation produces: positive, quiet, no payload.
pub const DEFAULT_NAN: u32 = 0x7FC0_0000;

/// The pattern of the number one.
pub const ONE: u32 = 0x3F80_0000;

/// The weight of the bit that a normal number's significand carries above
/// its fraction: `2^23`.
pub const HIDDEN: u32 = 0x0080_0000;

/// The pattern without its sign bit.
pub open spec fn magnitude_bits(b: u32) -> int {
    b as int % 0x8000_0000
}

/// The sign bit is set.
pub open spec fn is_negative(b: u32) -> bool {
    b >= SIGN
}

/// The biased exponent, `0..=255`.
pub open spec fn exponent_field(b: u32) -> int {
    (b as int / 0x80_0000) % 0x100
}

/// The fraction, `0..2^23`.
pub open spec fn fraction_field(b: u32) -> int {
    b as int % 0x80_0000
}

/// The pattern is not a number.
pub open spec fn is_nan(b: u32) -> bool {
    magnitude_bits(b) > INFINITY
}

/// The pattern is positive or negative infinity.
pub open spec fn is_infinite(b: u32) -> bool {
    magnitude_bits(b) == INFINITY
}

/// The pattern is a number other than an infinity.
pub open spec fn is_finite(b: u32) -> bool {
    magnitude_bits(b) < INFINITY
}

/// The pattern is positive or negative zero.
pub open spec fn is_zero(b: u32) -> bool {
    magnitude_bits(b) == 0
}

/// The pattern is a positive number other than zero and infinity, normal or
/// subnormal.
pub open spec fn is_positive_finite(b: u32) -> bool {
    0 < b < INFINITY
}

/// The integer significand of a finite pattern: the fraction, with the
/// hidden bit above it unless the number is subnormal.
pub open spec fn significand(b: u32) -> int {
    if exponent_field(b) == 0 {
        fraction_field(b)
    } else {
        HIDDEN + fraction_field(b)
    }
}

/// The power of two that the significand of a finite pattern is multiplied
/// by. Subnormal numbers share the scale of the smallest normal ones.
pub open spec fn scale(b: u32) -> int {
    if exponent_field(b) == 0 {
        -149
    } else {
        exponent_field(b) - 150
    }
}

/// The pattern of the positive number `q * 2^k`, for a significand `q` of
/// at most 24 bits and a scale `k` from `-149` to `104`.
///
/// A normal number, `2^23 <= q < 2^24`, has the exponent field `k + 150`
/// and the fraction `q - 2^23`, which is the sum below. A significand under
/// `2^23` goes with the scale `-149` alone and is then the whole pattern of
/// a subnormal number. At `q = 2^24` the sum carries into the exponent and
/// gives the pattern of `2^23 * 2^(k + 1)`, the same number, or at the
/// scale `104` the pattern of infinity.
pub open spec fn packed(q: int, k: int) -> int {
    (k + 149) * 0x80_0000 + q
}

/// The significand of a finite pattern with the sign of the number.
pub open spec fn signed_significand(b: u32) -> int {
    if is_negative(b) {
        -significand(b)
    } else {
        significand(b)
    }
}

/// The finite number with pattern `b`, in units of `2^-149`: a whole
/// number, since no single-precision number has a bit below that.
pub open spec fn units(b: u32) -> int {
    signed_significand(b) * pow2((scale(b) + 149) as nat)
}

/// The pattern of the absolute value: the same pattern with the sign bit
/// clear. A NaN loses its sign too.
pub open spec fn abs_of(b: u32) -> u32 {
    magnitude_bits(b) as u32
}

/// The same pattern with the other sign.
pub open spec fn negated(b: u32) -> u32 {
    if is_negative(b) {
        (b - SIGN) as u32
    } else {
        (b + SIGN) as u32
    }
}

/// A NaN made quiet: the same pattern with the quiet bit set.
pub open spec fn quieted(b: u32) -> u32 {
    if fraction_field(b) < QUIET {
        (b + QUIET) as u32
    } else {
        b
    }
}

/// Significand and scale belong to the magnitude: the sign bit plays no
/// part in them.
pub proof fn lemma_magnitude_fields(b: u32)
    ensures
        abs_of(b) < SIGN,
        magnitude_bits(abs_of(b)) == magnitude_bits(b),
        exponent_field(abs_of(b)) == exponent_field(b),
        fraction_field(abs_of(b)) == fraction_field(b),
        significand(abs_of(b)) == significand(b),
        scale(abs_of(b)) == scale(b),
        exponent_field(abs_of(b)) == abs_of(b) / HIDDEN,
{
}

} // verus!
