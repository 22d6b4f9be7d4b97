//! The model of a vector: a sequence of four integers, each within the range
//! of a 32-bit two's-complement lane.
//!
//! Every operation of the executable type is stated against one of the
//! functions below. Exact results are taken in the unbounded integers and
//! then stored with [`wrap`], so each definition says at once what a lane
//! holds when nothing overflows and what it holds when something does.

use vstd::prelude::*;
use vstd::arithmetic::div_mod::{lemma_fundamental_div_mod, lemma_mod_multiples_vanish};
use crate::binary32::sqrt_of;
use crate::LANES;

verus! {

/// The value that a 32-bit two's-complement lane holds after an exact result
/// `x` has been stored in it: the one integer in `[-2^31, 2^31)` that differs
/// from `x` by a multiple of `2^32`.
pub open spec fn wrap(x: int) -> int {
    let low = x % 0x1_0000_0000;
    if low >= 0x8000_0000 {
        low - 0x1_0000_0000
    } else {
        low
    }
}

/// `x` fits a lane without wrapping.
pub open spec fn in_lane(x: int) -> bool {
    -0x8000_0000 <= x < 0x8000_0000
}

/// `s` is the contents of some vector: four values, each fitting a lane.
pub open spec fn is_lanes(s: Seq<int>) -> bool {
    &&& s.len() == LANES
    &&& forall|i: int| 0 <= i < LANES ==> in_lane(#[trigger] s[i])
}

/// Distance of `x` from zero.
pub open spec fn magnitude_of(x: int) -> int {
    if x < 0 {
        -x
    } else {
        x
    }
}

/// The scalar `x` in every lane.
pub open spec fn splat(x: int) -> Seq<int> {
    Seq::new(LANES as nat, |i: int| x)
}

/// Lanewise wrapped sum.
pub open spec fn add_lanes(a: Seq<int>, b: Seq<int>) -> Seq<int> {
    Seq::new(LANES as nat, |i: int| wrap(a[i] + b[i]))
}

/// Lanewise wrapped difference.
pub open spec fn sub_lanes(a: Seq<int>, b: Seq<int>) -> Seq<int> {
    Seq::new(LANES as nat, |i: int| wrap(a[i] - b[i]))
}

/// Lanewise wrapped product.
pub open spec fn mul_lanes(a: Seq<int>, b: Seq<int>) -> Seq<int> {
    Seq::new(LANES as nat, |i: int| wrap(a[i] * b[i]))
}

/// Lanewise larger value.
pub open spec fn max_lanes(a: Seq<int>, b: Seq<int>) -> Seq<int> {
    Seq::new(
        LANES as nat,
        |i: int|
            if a[i] >= b[i] {
                a[i]
            } else {
                b[i]
            },
    )
}

/// Lanewise smaller value.
pub open spec fn min_lanes(a: Seq<int>, b: Seq<int>) -> Seq<int> {
    Seq::new(
        LANES as nat,
        |i: int|
            if a[i] <= b[i] {
                a[i]
            } else {
                b[i]
            },
    )
}

/// Lanewise wrapped absolute value. The one lane value whose distance from
/// zero does not fit, `-2^31`, wraps back to itself.
pub open spec fn abs_lanes(a: Seq<int>) -> Seq<int> {
    Seq::new(LANES as nat, |i: int| wrap(magnitude_of(a[i])))
}

/// Lanewise wrapped absolute difference. The exact distance between two
/// lanes can reach `2^32 - 1`; a distance of `2^31` or more wraps to a
/// negative lane.
pub open spec fn abs_diff_lanes(a: Seq<int>, b: Seq<int>) -> Seq<int> {
    Seq::new(LANES as nat, |i: int| wrap(magnitude_of(a[i] - b[i])))
}

/// Lanewise wrapped negation. `-2^31` wraps back to itself.
pub open spec fn neg_lanes(a: Seq<int>) -> Seq<int> {
    Seq::new(LANES as nat, |i: int| wrap(-a[i]))
}

/// The 32 bits of a lane read as an unsigned number: its bit pattern.
pub open spec fn pattern_of(x: int) -> u32 {
    if x < 0 {
        (x + 0x1_0000_0000) as u32
    } else {
        x as u32
    }
}

/// Lanewise square root of the single-precision number whose pattern the
/// lane holds, stored as that root's pattern.
///
/// This is not the integer square root of the lane's value. A lane holding
/// `0x4080_0000`, the pattern of 4.0, becomes `0x4000_0000`, the pattern of
/// 2.0; a lane holding the integer 4, the pattern of a subnormal number
/// close to zero, becomes the pattern of that number's root.
pub open spec fn sqrt_lanes(a: Seq<int>) -> Seq<int> {
    Seq::new(LANES as nat, |i: int| wrap(sqrt_of(pattern_of(a[i])) as int))
}

/// The first two lanes of `a` followed by the first two lanes of `b`.
pub open spec fn concat_lanes(a: Seq<int>, b: Seq<int>) -> Seq<int> {
    seq![a[0], a[1], b[0], b[1]]
}

/// The exact sum of the four lanes.
pub open spec fn exact_sum(a: Seq<int>) -> int {
    a[0] + a[1] + a[2] + a[3]
}

/// The exact sum of the four lanewise products.
pub open spec fn exact_dot(a: Seq<int>, b: Seq<int>) -> int {
    a[0] * b[0] + a[1] * b[1] + a[2] * b[2] + a[3] * b[3]
}

/// Whole multiples of `2^32` make no difference to what a lane holds.
pub proof fn lemma_wrap_period(x: int, k: int)
    ensures
        wrap(x + 0x1_0000_0000 * k) == wrap(x),
{
    lemma_mod_multiples_vanish(k, x, 0x1_0000_0000);
}

/// What a lane holds differs from the exact value by a whole multiple of
/// `2^32`, which this lemma returns.
pub proof fn lemma_wrap_offset(x: int) -> (k: int)
    ensures
        wrap(x) == x + 0x1_0000_0000 * k,
{
    lemma_fundamental_div_mod(x, 0x1_0000_0000);
    if x % 0x1_0000_0000 >= 0x8000_0000 {
        -(x / 0x1_0000_0000) - 1
    } else {
        -(x / 0x1_0000_0000)
    }
}

/// Storing an exact value that already went through a lane changes nothing
/// more: wrapping a sum may be done before or after adding.
pub proof fn lemma_wrap_absorbs(x: int, y: int)
    ensures
        wrap(wrap(x) + y) == wrap(x + y),
        wrap(x + wrap(y)) == wrap(x + y),
        wrap(wrap(x) + wrap(y)) == wrap(x + y),
        wrap(wrap(x) - wrap(y)) == wrap(x - y),
{
    let i = lemma_wrap_offset(x);
    let j = lemma_wrap_offset(y);
    lemma_wrap_period(x + y, i);
    lemma_wrap_period(x + y, j);
    lemma_wrap_period(x + y, i + j);
    lemma_wrap_period(x - y, i - j);
    assert(wrap(x) + y == (x + y) + 0x1_0000_0000 * i);
    assert(x + wrap(y) == (x + y) + 0x1_0000_0000 * j);
    assert(wrap(x) + wrap(y) == (x + y) + 0x1_0000_0000 * (i + j));
    assert(wrap(x) - wrap(y) == (x - y) + 0x1_0000_0000 * (i - j));
}

/// Adding four values as a tree of wrapped pair sums, each value having gone
/// through a lane first, gives the exact sum wrapped once.
pub proof fn lemma_wrap_tree(x0: int, x1: int, x2: int, x3: int)
    ensures
        wrap(wrap(wrap(x0) + wrap(x1)) + wrap(wrap(x2) + wrap(x3))) == wrap(x0 + x1 + x2 + x3),
{
    let low = wrap(x0) + wrap(x1);
    let high = wrap(x2) + wrap(x3);
    lemma_wrap_absorbs(x0, x1);
    lemma_wrap_absorbs(x2, x3);
    lemma_wrap_absorbs(low, high);
    lemma_wrap_absorbs(x0 + x1, x2 + x3);
}

/// A wrapped value fits a lane, and a value that fits is left as it is.
pub proof fn lemma_wrap_range(x: int)
    ensures
        in_lane(wrap(x)),
        in_lane(x) ==> wrap(x) == x,
{
}

} // verus!
