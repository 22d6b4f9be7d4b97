//! The executable four-lane vector of signed integers.

use vstd::prelude::*;
use crate::int_lanes::{
    abs_diff_lanes, abs_lanes, add_lanes, concat_lanes, exact_dot, exact_sum, is_lanes,
    lemma_wrap_range, lemma_wrap_tree, magnitude_of, max_lanes, min_lanes, mul_lanes, neg_lanes,
    pattern_of, splat, sqrt_lanes, sub_lanes, wrap,
};
use crate::LANES;
use crate::binary32;

verus! {

/// Four lanes of `i32`, in order.
///
/// Lanewise operations replace the lanes of the receiver; reductions and
/// [`IntVector::concat`] leave both operands as they are and return a new
/// value.
///
/// Overflow wraps. The plain operators of `i32` panic on overflow in a build
/// with overflow checks, so no operation here uses them: every sum,
/// difference and product is taken with the wrapping form, in every build.
pub struct IntVector {
    data: [i32; 4],
}

impl View for IntVector {
    type V = Seq<int>;

    /// The lanes as mathematical integers, lane 0 first.
    closed spec fn view(&self) -> Seq<int> {
        Seq::new(LANES as nat, |i: int| self.data[i] as int)
    }
}

/// Sum of two lanes, wrapped.
fn add_lane(x: i32, y: i32) -> (r: i32)
    ensures
        r == wrap(x + y),
{
    x.wrapping_add(y)
}

/// Difference of two lanes, wrapped.
fn sub_lane(x: i32, y: i32) -> (r: i32)
    ensures
        r == wrap(x - y),
{
    x.wrapping_sub(y)
}

/// Product of two lanes, wrapped.
fn mul_lane(x: i32, y: i32) -> (r: i32)
    ensures
        r == wrap(x * y),
{
    x.wrapping_mul(y)
}

/// Absolute value of one lane, wrapping at `i32::MIN`.
fn abs_lane(x: i32) -> (r: i32)
    ensures
        r == wrap(magnitude_of(x as int)),
{
    if x < 0 {
        0i32.wrapping_sub(x)
    } else {
        x
    }
}

/// Absolute difference of two lanes, wrapping where the distance does not fit.
fn abs_diff_lane(x: i32, y: i32) -> (r: i32)
    ensures
        r == wrap(magnitude_of(x - y)),
{
    if x < y {
        y.wrapping_sub(x)
    } else {
        x.wrapping_sub(y)
    }
}

/// The bit pattern of a lane.
fn to_pattern(x: i32) -> (p: u32)
    ensures
        p == pattern_of(x as int),
{
    if x < 0 {
        (x as i64 + 0x1_0000_0000) as u32
    } else {
        x as u32
    }
}

/// The lane that holds a bit pattern.
fn from_pattern(p: u32) -> (x: i32)
    ensures
        x == wrap(p as int),
{
    if p >= 0x8000_0000 {
        (p as i64 - 0x1_0000_0000) as i32
    } else {
        p as i32
    }
}

/// Square root of the single-precision number whose pattern the lane holds,
/// as a pattern again.
fn sqrt_lane(x: i32) -> (r: i32)
    ensures
        r == wrap(binary32::sqrt_of(pattern_of(x as int)) as int),
{
    from_pattern(binary32::sqrt(to_pattern(x)))
}

/// The larger of two lanes.
fn max_lane(x: i32, y: i32) -> (r: i32)
    ensures
        r == if x >= y { x } else { y },
{
    if x >= y {
        x
    } else {
        y
    }
}

/// The smaller of two lanes.
fn min_lane(x: i32, y: i32) -> (r: i32)
    ensures
        r == if x <= y { x } else { y },
{
    if x <= y {
        x
    } else {
        y
    }
}

impl IntVector {
    /// Every vector holds four lanes, each within the range of `i32`.
    pub proof fn lemma_view_is_lanes(&self)
        ensures
            is_lanes(self@),
    {
    }

    /// The vector with lanes `a`, `b`, `c`, `d`, in that order.
    pub fn new(a: i32, b: i32, c: i32, d: i32) -> (v: IntVector)
        ensures
            v@ == seq![a as int, b as int, c as int, d as int],
    {
        let v = IntVector { data: [a, b, c, d] };
        assert(v@ =~= seq![a as int, b as int, c as int, d as int]);
        v
    }

    /// Read access to the four lanes.
    pub fn get_data(&self) -> (data: &[i32; 4])
        ensures
            data@.len() == LANES,
            forall|i: int| 0 <= i < LANES ==> data@[i] as int == self@[i],
    {
        &self.data
    }

    /// Adds `other` to this vector, lane by lane, wrapping on overflow.
    pub fn add(&mut self, other: &IntVector)
        ensures
            final(self)@ == add_lanes(old(self)@, other@),
    {
        self.data = [
            add_lane(self.data[0], other.data[0]),
            add_lane(self.data[1], other.data[1]),
            add_lane(self.data[2], other.data[2]),
            add_lane(self.data[3], other.data[3]),
        ];
        assert(self@ =~= add_lanes(old(self)@, other@));
    }

    /// Adds `scalar` to every lane, wrapping on overflow.
    pub fn scalar_add(&mut self, scalar: i32)
        ensures
            final(self)@ == add_lanes(old(self)@, splat(scalar as int)),
    {
        self.data = [
            add_lane(self.data[0], scalar),
            add_lane(self.data[1], scalar),
            add_lane(self.data[2], scalar),
            add_lane(self.data[3], scalar),
        ];
        assert(self@ =~= add_lanes(old(self)@, splat(scalar as int)));
    }

    /// Subtracts `other` from this vector, lane by lane, wrapping on overflow.
    pub fn subtract(&mut self, other: &IntVector)
        ensures
            final(self)@ == sub_lanes(old(self)@, other@),
    {
        self.data = [
            sub_lane(self.data[0], other.data[0]),
            sub_lane(self.data[1], other.data[1]),
            sub_lane(self.data[2], other.data[2]),
            sub_lane(self.data[3], other.data[3]),
        ];
        assert(self@ =~= sub_lanes(old(self)@, other@));
    }

    /// Subtracts `scalar` from every lane, wrapping on overflow.
    pub fn scalar_subtract(&mut self, scalar: i32)
        ensures
            final(self)@ == sub_lanes(old(self)@, splat(scalar as int)),
    {
        self.data = [
            sub_lane(self.data[0], scalar),
            sub_lane(self.data[1], scalar),
            sub_lane(self.data[2], scalar),
            sub_lane(self.data[3], scalar),
        ];
        assert(self@ =~= sub_lanes(old(self)@, splat(scalar as int)));
    }

    /// Multiplies this vector by `other`, lane by lane, wrapping on overflow.
    pub fn multiply(&mut self, other: &IntVector)
        ensures
            final(self)@ == mul_lanes(old(self)@, other@),
    {
        self.data = [
            mul_lane(self.data[0], other.data[0]),
            mul_lane(self.data[1], other.data[1]),
            mul_lane(self.data[2], other.data[2]),
            mul_lane(self.data[3], other.data[3]),
        ];
        assert(self@ =~= mul_lanes(old(self)@, other@));
    }

    /// Multiplies every lane by `scalar`, wrapping on overflow.
    pub fn scalar_multiply(&mut self, scalar: i32)
        ensures
            final(self)@ == mul_lanes(old(self)@, splat(scalar as int)),
    {
        self.data = [
            mul_lane(self.data[0], scalar),
            mul_lane(self.data[1], scalar),
            mul_lane(self.data[2], scalar),
            mul_lane(self.data[3], scalar),
        ];
        assert(self@ =~= mul_lanes(old(self)@, splat(scalar as int)));
    }

    /// Replaces every lane by the larger of it and the same lane of `other`.
    pub fn maximum(&mut self, other: &IntVector)
        ensures
            final(self)@ == max_lanes(old(self)@, other@),
    {
        self.data = [
            max_lane(self.data[0], other.data[0]),
            max_lane(self.data[1], other.data[1]),
            max_lane(self.data[2], other.data[2]),
            max_lane(self.data[3], other.data[3]),
        ];
        assert(self@ =~= max_lanes(old(self)@, other@));
    }

    /// Replaces every lane by the smaller of it and the same lane of `other`.
    pub fn minimum(&mut self, other: &IntVector)
        ensures
            final(self)@ == min_lanes(old(self)@, other@),
    {
        self.data = [
            min_lane(self.data[0], other.data[0]),
            min_lane(self.data[1], other.data[1]),
            min_lane(self.data[2], other.data[2]),
            min_lane(self.data[3], other.data[3]),
        ];
        assert(self@ =~= min_lanes(old(self)@, other@));
    }

    /// The sum of the four lanewise products, wrapped once.
    ///
    /// The products are added as a tree: lanes 0 and 1, lanes 2 and 3, then
    /// the two partial sums. Every step wraps, and since wrapping commutes
    /// with addition the result is the exact dot product stored in a lane,
    /// whatever the order of the additions.
    pub fn dot_product(&self, other: &IntVector) -> (r: i32)
        ensures
            r == wrap(exact_dot(self@, other@)),
    {
        let low = add_lane(
            mul_lane(self.data[0], other.data[0]),
            mul_lane(self.data[1], other.data[1]),
        );
        let high = add_lane(
            mul_lane(self.data[2], other.data[2]),
            mul_lane(self.data[3], other.data[3]),
        );
        let r = add_lane(low, high);
        proof {
            lemma_wrap_tree(
                self@[0] * other@[0],
                self@[1] * other@[1],
                self@[2] * other@[2],
                self@[3] * other@[3],
            );
        }
        r
    }

    /// Replaces every lane by its absolute value. `i32::MIN` has none within
    /// range and is left as it is.
    pub fn abs(&mut self)
        ensures
            final(self)@ == abs_lanes(old(self)@),
    {
        self.data = [
            abs_lane(self.data[0]),
            abs_lane(self.data[1]),
            abs_lane(self.data[2]),
            abs_lane(self.data[3]),
        ];
        assert(self@ =~= abs_lanes(old(self)@));
    }

    /// Replaces every lane by its distance from the same lane of `other`,
    /// wrapped where that distance exceeds `i32::MAX`.
    pub fn abs_difference(&mut self, other: &IntVector)
        ensures
            final(self)@ == abs_diff_lanes(old(self)@, other@),
    {
        self.data = [
            abs_diff_lane(self.data[0], other.data[0]),
            abs_diff_lane(self.data[1], other.data[1]),
            abs_diff_lane(self.data[2], other.data[2]),
            abs_diff_lane(self.data[3], other.data[3]),
        ];
        assert(self@ =~= abs_diff_lanes(old(self)@, other@));
    }

    /// The sum of the four lanes, wrapped once.
    pub fn sum(&self) -> (r: i32)
        ensures
            r == wrap(exact_sum(self@)),
    {
        let low = add_lane(self.data[0], self.data[1]);
        let high = add_lane(self.data[2], self.data[3]);
        let r = add_lane(low, high);
        proof {
            lemma_wrap_range(self@[0]);
            lemma_wrap_range(self@[1]);
            lemma_wrap_range(self@[2]);
            lemma_wrap_range(self@[3]);
            lemma_wrap_tree(self@[0], self@[1], self@[2], self@[3]);
        }
        r
    }

    /// Replaces every lane by the square root of the single-precision number
    /// that its 32 bits spell, kept as bits.
    ///
    /// The lanes are reinterpreted, not converted: this is a floating-point
    /// square root passed through integer lanes, and it does not compute the
    /// integer square root of a lane's value. A lane whose sign bit is set
    /// spells a negative number or a NaN and becomes the pattern of a NaN.
    pub fn sqrt(&mut self)
        ensures
            final(self)@ == sqrt_lanes(old(self)@),
    {
        self.data = [
            sqrt_lane(self.data[0]),
            sqrt_lane(self.data[1]),
            sqrt_lane(self.data[2]),
            sqrt_lane(self.data[3]),
        ];
        assert(self@ =~= sqrt_lanes(old(self)@));
    }

    /// Negates every lane. `i32::MIN` wraps back to itself.
    pub fn negate(&mut self)
        ensures
            final(self)@ == neg_lanes(old(self)@),
    {
        self.data = [
            sub_lane(0, self.data[0]),
            sub_lane(0, self.data[1]),
            sub_lane(0, self.data[2]),
            sub_lane(0, self.data[3]),
        ];
        assert(self@ =~= neg_lanes(old(self)@));
    }

    /// A new vector made of the first two lanes of this vector followed by
    /// the first two lanes of `other`. The last two lanes of either operand
    /// play no part.
    pub fn concat(&self, other: &IntVector) -> (v: IntVector)
        ensures
            v@ == concat_lanes(self@, other@),
    {
        let v = IntVector { data: [self.data[0], self.data[1], other.data[0], other.data[1]] };
        assert(v@ =~= concat_lanes(self@, other@));
        v
    }
}

} // verus!
