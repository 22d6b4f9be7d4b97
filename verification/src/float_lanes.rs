//! The model of a vector of single-precision numbers: a sequence of four
//! 32-bit patterns.
//!
//! Every operation of the executable type is stated against one of the
//! functions below, which apply the scalar operations of
//! [`crate::binary32`] lane by lane or combine the lanes in a fixed order.
//! Sums of single-precision numbers depend on the order of the additions, so
//! the reductions name theirs.

use vstd::prelude::*;
use crate::binary32::{
    abs_of, clamp_of, maximum_of, minimum_of, minus_of, negated, plus_of, recip_estimate_of,
    sqrt_of, times_of,
};
use crate::LANES;

verus! {

/// `s` is the contents of some vector: four patterns.
pub open spec fn is_lanes(s: Seq<u32>) -> bool {
    s.len() == LANES
}

/// The pattern `x` in every lane.
pub open spec fn splat(x: u32) -> Seq<u32> {
    Seq::new(LANES as nat, |i: int| x)
}

/// Lanewise sum.
pub open spec fn plus_lanes(a: Seq<u32>, b: Seq<u32>) -> Seq<u32> {
    Seq::new(LANES as nat, |i: int| plus_of(a[i], b[i]))
}

/// Lanewise difference.
pub open spec fn minus_lanes(a: Seq<u32>, b: Seq<u32>) -> Seq<u32> {
    Seq::new(LANES as nat, |i: int| minus_of(a[i], b[i]))
}

/// Lanewise product.
pub open spec fn times_lanes(a: Seq<u32>, b: Seq<u32>) -> Seq<u32> {
    Seq::new(LANES as nat, |i: int| times_of(a[i], b[i]))
}

/// Lanewise larger number.
pub open spec fn max_lanes(a: Seq<u32>, b: Seq<u32>) -> Seq<u32> {
    Seq::new(LANES as nat, |i: int| maximum_of(a[i], b[i]))
}

/// Lanewise smaller number.
pub open spec fn min_lanes(a: Seq<u32>, b: Seq<u32>) -> Seq<u32> {
    Seq::new(LANES as nat, |i: int| minimum_of(a[i], b[i]))
}

/// Lanewise absolute value.
pub open spec fn abs_lanes(a: Seq<u32>) -> Seq<u32> {
    Seq::new(LANES as nat, |i: int| abs_of(a[i]))
}

/// Lanewise absolute value of the difference.
pub open spec fn abs_diff_lanes(a: Seq<u32>, b: Seq<u32>) -> Seq<u32> {
    Seq::new(LANES as nat, |i: int| abs_of(minus_of(a[i], b[i])))
}

/// Lanewise opposite.
pub open spec fn neg_lanes(a: Seq<u32>) -> Seq<u32> {
    Seq::new(LANES as nat, |i: int| negated(a[i]))
}

/// Lanewise square root.
pub open spec fn sqrt_lanes(a: Seq<u32>) -> Seq<u32> {
    Seq::new(LANES as nat, |i: int| sqrt_of(a[i]))
}

/// Every lane held between `low` and `high`.
pub open spec fn clamp_lanes(a: Seq<u32>, low: u32, high: u32) -> Seq<u32> {
    Seq::new(LANES as nat, |i: int| clamp_of(a[i], low, high))
}

/// The first two lanes of `a` followed by the first two lanes of `b`.
pub open spec fn concat_lanes(a: Seq<u32>, b: Seq<u32>) -> Seq<u32> {
    seq![a[0], a[1], b[0], b[1]]
}

/// The sum of the four lanes, added as a tree: lanes 0 and 1, lanes 2 and 3,
/// then the two partial sums. Each of the three additions rounds.
pub open spec fn tree_sum(a: Seq<u32>) -> u32 {
    plus_of(plus_of(a[0], a[1]), plus_of(a[2], a[3]))
}

/// The dot product: the tree sum of the lanewise product.
pub open spec fn dot_of(a: Seq<u32>, b: Seq<u32>) -> u32 {
    tree_sum(times_lanes(a, b))
}

/// The Euclidean length: the square root of the dot product of the vector
/// with itself.
pub open spec fn length_of(a: Seq<u32>) -> u32 {
    sqrt_of(dot_of(a, a))
}

/// Every lane multiplied by the reciprocal estimate of the length.
///
/// The estimate carries eight bits, so the result has a length of 1 only to
/// within about one part in 256. A vector of length zero has an infinite
/// estimate, and each of its lanes, zero times infinity, becomes a NaN.
pub open spec fn normalize_lanes(a: Seq<u32>) -> Seq<u32> {
    times_lanes(a, splat(recip_estimate_of(length_of(a))))
}

} // verus!
