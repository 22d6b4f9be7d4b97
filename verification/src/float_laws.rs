//! Laws that hold of all vectors of single-precision numbers, stated
//! over the model in [`crate::float_lanes`] and so of every result that the
//! executable operations return.

use vstd::prelude::*;
use vstd::arithmetic::power2::pow2;
use crate::binary32::laws::{
    is_exact_sum, is_non_negative, lemma_exact_plus_then_minus, lemma_plus_non_negative,
    lemma_plus_same_result, lemma_sqrt_non_negative, lemma_square_non_negative,
    lemma_times_commutes, lemma_times_commutes_up_to_nan, same_result,
};
use crate::binary32::order::{lemma_clamp_crossed_bounds, order_key};
use crate::binary32::{is_nan, is_zero, plus_of};
use crate::float_lanes::{
    clamp_lanes, concat_lanes, dot_of, is_lanes, length_of, minus_lanes, plus_lanes, splat,
    times_lanes, tree_sum,
};

verus! {

/// No lane of `a` is a NaN.
pub open spec fn all_numbers(a: Seq<u32>) -> bool {
    forall|i: int| 0 <= i < a.len() ==> !is_nan(#[trigger] a[i])
}

/// Adding `b` and then subtracting it again restores `a`, lane by lane,
/// wherever every lane of the sum is exact and no lane of `a` is zero.
pub proof fn lemma_exact_add_then_subtract(a: Seq<u32>, b: Seq<u32>)
    requires
        is_lanes(a),
        is_lanes(b),
        forall|i: int| 0 <= i < 4 ==> is_exact_sum(#[trigger] a[i], b[i]) && !is_zero(a[i]),
    ensures
        minus_lanes(plus_lanes(a, b), b) == a,
{
    assert forall|i: int| 0 <= i < 4 implies minus_lanes(plus_lanes(a, b), b)[i] == a[i] by {
        lemma_exact_plus_then_minus(a[i], b[i]);
    }
    assert(minus_lanes(plus_lanes(a, b), b) =~= a);
}

/// The dot product does not depend on the order of the two vectors: either
/// order gives the same pattern, or both give a NaN.
pub proof fn lemma_dot_commutes_up_to_nan(a: Seq<u32>, b: Seq<u32>)
    requires
        is_lanes(a),
        is_lanes(b),
    ensures
        same_result(dot_of(a, b), dot_of(b, a)),
{
    let p = times_lanes(a, b);
    let q = times_lanes(b, a);
    lemma_times_commutes_up_to_nan(a[0], b[0]);
    lemma_times_commutes_up_to_nan(a[1], b[1]);
    lemma_times_commutes_up_to_nan(a[2], b[2]);
    lemma_times_commutes_up_to_nan(a[3], b[3]);
    lemma_plus_same_result(p[0], p[1], q[0], q[1]);
    lemma_plus_same_result(p[2], p[3], q[2], q[3]);
    lemma_plus_same_result(
        plus_of(p[0], p[1]),
        plus_of(p[2], p[3]),
        plus_of(q[0], q[1]),
        plus_of(q[2], q[3]),
    );
}

/// The dot product of two vectors of numbers does not depend on their
/// order, to the last bit.
pub proof fn lemma_dot_commutes(a: Seq<u32>, b: Seq<u32>)
    requires
        is_lanes(a),
        is_lanes(b),
        all_numbers(a),
        all_numbers(b),
    ensures
        dot_of(a, b) == dot_of(b, a),
{
    assert forall|i: int| 0 <= i < 4 implies times_lanes(a, b)[i] == times_lanes(b, a)[i] by {
        lemma_times_commutes(a[i], b[i]);
    }
    assert(times_lanes(a, b) =~= times_lanes(b, a));
}

/// The length of a vector is never below zero. It is a NaN exactly when a
/// lane is one, and otherwise a number from zero to infinity.
pub proof fn lemma_length_non_negative(a: Seq<u32>)
    requires
        is_lanes(a),
    ensures
        is_nan(length_of(a)) || is_non_negative(length_of(a)),
        is_nan(length_of(a)) <==> !all_numbers(a),
{
    let p = times_lanes(a, a);
    lemma_square_non_negative(a[0]);
    lemma_square_non_negative(a[1]);
    lemma_square_non_negative(a[2]);
    lemma_square_non_negative(a[3]);
    lemma_plus_non_negative(p[0], p[1]);
    lemma_plus_non_negative(p[2], p[3]);
    lemma_plus_non_negative(plus_of(p[0], p[1]), plus_of(p[2], p[3]));
    lemma_sqrt_non_negative(tree_sum(p));
}

/// The zero vector has length zero.
pub proof fn lemma_length_of_zero()
    ensures
        length_of(splat(0)) == 0,
{
    let p = times_lanes(splat(0), splat(0));
    assert(p[0] == 0 && p[1] == 0 && p[2] == 0 && p[3] == 0);
    assert(plus_of(0, 0) == 0) by {
        assert(0 * pow2(0) + 0 * pow2(0) == 0) by (nonlinear_arith);
    }
}

/// Where the bounds cross, with `low` above `high`, clamping gives `low` in
/// every lane, whatever numbers the lanes held.
pub proof fn lemma_clamp_crossed(a: Seq<u32>, low: u32, high: u32)
    requires
        is_lanes(a),
        all_numbers(a),
        !is_nan(low),
        !is_nan(high),
        order_key(low) > order_key(high),
    ensures
        clamp_lanes(a, low, high) == splat(low),
{
    assert forall|i: int| 0 <= i < 4 implies clamp_lanes(a, low, high)[i] == low by {
        lemma_clamp_crossed_bounds(a[i], low, high);
    }
    assert(clamp_lanes(a, low, high) =~= splat(low));
}

/// Concatenation reads only the first half of each operand: the result's
/// last two lanes are the right operand's first two, never the left
/// operand's last two.
pub proof fn lemma_concat_halves(a: Seq<u32>, b: Seq<u32>)
    ensures
        concat_lanes(a, b).len() == 4,
        concat_lanes(a, b)[0] == a[0],
        concat_lanes(a, b)[1] == a[1],
        concat_lanes(a, b)[2] == b[0],
        concat_lanes(a, b)[3] == b[1],
{
}

} // verus!
