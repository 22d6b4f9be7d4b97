//! Laws that hold of all vectors of integers, stated over the model in
//! [`crate::int_lanes`] and so of every result that the executable operations
//! return.

use vstd::prelude::*;
use crate::int_lanes::{
    add_lanes, concat_lanes, exact_dot, exact_sum, in_lane, is_lanes, lemma_wrap_range,
    mul_lanes, neg_lanes, splat, sub_lanes, wrap,
};

verus! {

/// Every lanewise result is again the contents of a vector: the lane count
/// stays four and each lane stays within range.
pub proof fn lemma_results_are_lanes(a: Seq<int>, b: Seq<int>)
    requires
        is_lanes(a),
        is_lanes(b),
    ensures
        is_lanes(add_lanes(a, b)),
        is_lanes(sub_lanes(a, b)),
        is_lanes(mul_lanes(a, b)),
        is_lanes(neg_lanes(a)),
        is_lanes(concat_lanes(a, b)),
{
    assert forall|i: int| 0 <= i < 4 implies in_lane(#[trigger] mul_lanes(a, b)[i]) by {
        lemma_wrap_range(a[i] * b[i]);
    }
}

/// Adding `b` and then subtracting it again restores `a` exactly, also when
/// the addition wrapped.
pub proof fn lemma_add_then_subtract(a: Seq<int>, b: Seq<int>)
    requires
        is_lanes(a),
        is_lanes(b),
    ensures
        sub_lanes(add_lanes(a, b), b) == a,
{
    assert(sub_lanes(add_lanes(a, b), b) =~= a);
}

/// Subtracting `b` and then adding it again restores `a` exactly, also when
/// the subtraction wrapped.
pub proof fn lemma_subtract_then_add(a: Seq<int>, b: Seq<int>)
    requires
        is_lanes(a),
        is_lanes(b),
    ensures
        add_lanes(sub_lanes(a, b), b) == a,
{
    assert(add_lanes(sub_lanes(a, b), b) =~= a);
}

/// Adding a broadcast scalar and then subtracting it restores the vector.
pub proof fn lemma_scalar_add_then_subtract(a: Seq<int>, s: int)
    requires
        is_lanes(a),
        in_lane(s),
    ensures
        sub_lanes(add_lanes(a, splat(s)), splat(s)) == a,
{
    assert(sub_lanes(add_lanes(a, splat(s)), splat(s)) =~= a);
}

/// The dot product does not depend on the order of its operands.
pub proof fn lemma_dot_commutes(a: Seq<int>, b: Seq<int>)
    ensures
        wrap(exact_dot(a, b)) == wrap(exact_dot(b, a)),
{
    assert(a[0] * b[0] == b[0] * a[0]) by (nonlinear_arith);
    assert(a[1] * b[1] == b[1] * a[1]) by (nonlinear_arith);
    assert(a[2] * b[2] == b[2] * a[2]) by (nonlinear_arith);
    assert(a[3] * b[3] == b[3] * a[3]) by (nonlinear_arith);
}

/// The dot product is the sum of the lanewise product: multiplying lane by
/// lane and then summing gives the same scalar, although the products wrap
/// before they are added.
pub proof fn lemma_dot_is_sum_of_product(a: Seq<int>, b: Seq<int>)
    ensures
        wrap(exact_sum(mul_lanes(a, b))) == wrap(exact_dot(a, b)),
{
    crate::int_lanes::lemma_wrap_tree(a[0] * b[0], a[1] * b[1], a[2] * b[2], a[3] * b[3]);
    let p = mul_lanes(a, b);
    crate::int_lanes::lemma_wrap_absorbs(p[0], p[1]);
    crate::int_lanes::lemma_wrap_absorbs(p[2], p[3]);
    crate::int_lanes::lemma_wrap_absorbs(p[0] + p[1], p[2] + p[3]);
}

/// Negating twice restores every lane, the lowest value included.
pub proof fn lemma_negate_twice(a: Seq<int>)
    requires
        is_lanes(a),
    ensures
        neg_lanes(neg_lanes(a)) == a,
{
    assert(neg_lanes(neg_lanes(a)) =~= a);
}

/// Concatenation reads only the first half of each operand: the result's
/// last two lanes are the right operand's first two, never the left
/// operand's last two.
pub proof fn lemma_concat_halves(a: Seq<int>, b: Seq<int>)
    ensures
        concat_lanes(a, b).len() == 4,
        concat_lanes(a, b)[0] == a[0],
        concat_lanes(a, b)[1] == a[1],
        concat_lanes(a, b)[2] == b[0],
        concat_lanes(a, b)[3] == b[1],
{
}

} // verus!
