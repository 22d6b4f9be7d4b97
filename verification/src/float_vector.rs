//! The executable four-lane vector of single-precision numbers.

use vstd::prelude::*;
use crate::binary32;
use crate::binary32::ONE;
use crate::float_lanes::{
    abs_diff_lanes, abs_lanes, clamp_lanes, concat_lanes, dot_of, length_of, max_lanes,
    min_lanes, minus_lanes, neg_lanes, normalize_lanes, plus_lanes, splat, sqrt_lanes,
    times_lanes, tree_sum,
};
use crate::LANES;

verus! {

/// Four lanes of single-precision numbers, in order, each held as its
/// 32-bit pattern.
///
/// Lanewise operations replace the lanes of the receiver; reductions and
/// [`Vector::concat`] leave both operands as they are and return a new value.
/// Scalars are passed and returned as patterns too.
pub struct Vector {
    data: [u32; 4],
}

impl View for Vector {
    type V = Seq<u32>;

    /// The four patterns, lane 0 first.
    closed spec fn view(&self) -> Seq<u32> {
        self.data@
    }
}

/// The sum of four numbers, added as a tree.
fn tree(x0: u32, x1: u32, x2: u32, x3: u32) -> (r: u32)
    ensures
        r == tree_sum(seq![x0, x1, x2, x3]),
{
    binary32::plus(binary32::plus(x0, x1), binary32::plus(x2, x3))
}

impl Vector {
    /// Every vector holds four lanes.
    pub proof fn lemma_view_is_lanes(&self)
        ensures
            self@.len() == LANES,
    {
    }

    /// The vector with lanes `a`, `b`, `c`, `d`, in that order.
    pub fn new(a: u32, b: u32, c: u32, d: u32) -> (v: Vector)
        ensures
            v@ == seq![a, b, c, d],
    {
        let v = Vector { data: [a, b, c, d] };
        assert(v@ =~= seq![a, b, c, d]);
        v
    }

    /// The vector with positive zero in every lane.
    pub fn zero() -> (v: Vector)
        ensures
            v@ == splat(0),
    {
        let v = Vector { data: [0, 0, 0, 0] };
        assert(v@ =~= splat(0));
        v
    }

    /// The unit vector along the first axis: one in lane 0.
    pub fn unit_x() -> (v: Vector)
        ensures
            v@ == seq![ONE, 0, 0, 0],
    {
        let v = Vector { data: [ONE, 0, 0, 0] };
        assert(v@ =~= seq![ONE, 0, 0, 0]);
        v
    }

    /// The unit vector along the second axis: one in lane 1.
    pub fn unit_y() -> (v: Vector)
        ensures
            v@ == seq![0, ONE, 0, 0],
    {
        let v = Vector { data: [0, ONE, 0, 0] };
        assert(v@ =~= seq![0, ONE, 0, 0]);
        v
    }

    /// The unit vector along the third axis: one in lane 2.
    pub fn unit_z() -> (v: Vector)
        ensures
            v@ == seq![0, 0, ONE, 0],
    {
        let v = Vector { data: [0, 0, ONE, 0] };
        assert(v@ =~= seq![0, 0, ONE, 0]);
        v
    }

    /// The unit vector along the fourth axis: one in lane 3.
    pub fn unit_w() -> (v: Vector)
        ensures
            v@ == seq![0, 0, 0, ONE],
    {
        let v = Vector { data: [0, 0, 0, ONE] };
        assert(v@ =~= seq![0, 0, 0, ONE]);
        v
    }

    /// Read access to the four lanes.
    pub fn get_data(&self) -> (data: &[u32; 4])
        ensures
            data@ == self@,
    {
        &self.data
    }

    /// Adds `other` to this vector, lane by lane.
    pub fn add(&mut self, other: &Vector)
        ensures
            final(self)@ == plus_lanes(old(self)@, other@),
    {
        self.data = [
            binary32::plus(self.data[0], other.data[0]),
            binary32::plus(self.data[1], other.data[1]),
            binary32::plus(self.data[2], other.data[2]),
            binary32::plus(self.data[3], other.data[3]),
        ];
        assert(self@ =~= plus_lanes(old(self)@, other@));
    }

    /// Adds `scalar` to every lane.
    pub fn scalar_add(&mut self, scalar: u32)
        ensures
            final(self)@ == plus_lanes(old(self)@, splat(scalar)),
    {
        self.data = [
            binary32::plus(self.data[0], scalar),
            binary32::plus(self.data[1], scalar),
            binary32::plus(self.data[2], scalar),
            binary32::plus(self.data[3], scalar),
        ];
        assert(self@ =~= plus_lanes(old(self)@, splat(scalar)));
    }

    /// Subtracts `other` from this vector, lane by lane.
    pub fn subtract(&mut self, other: &Vector)
        ensures
            final(self)@ == minus_lanes(old(self)@, other@),
    {
        self.data = [
            binary32::minus(self.data[0], other.data[0]),
            binary32::minus(self.data[1], other.data[1]),
            binary32::minus(self.data[2], other.data[2]),
            binary32::minus(self.data[3], other.data[3]),
        ];
        assert(self@ =~= minus_lanes(old(self)@, other@));
    }

    /// Subtracts `scalar` from every lane.
    pub fn scalar_subtract(&mut self, scalar: u32)
        ensures
            final(self)@ == minus_lanes(old(self)@, splat(scalar)),
    {
        self.data = [
            binary32::minus(self.data[0], scalar),
            binary32::minus(self.data[1], scalar),
            binary32::minus(self.data[2], scalar),
            binary32::minus(self.data[3], scalar),
        ];
        assert(self@ =~= minus_lanes(old(self)@, splat(scalar)));
    }

    /// Multiplies this vector by `other`, lane by lane.
    pub fn multiply(&mut self, other: &Vector)
        ensures
            final(self)@ == times_lanes(old(self)@, other@),
    {
        self.data = [
            binary32::times(self.data[0], other.data[0]),
            binary32::times(self.data[1], other.data[1]),
            binary32::times(self.data[2], other.data[2]),
            binary32::times(self.data[3], other.data[3]),
        ];
        assert(self@ =~= times_lanes(old(self)@, other@));
    }

    /// Multiplies every lane by `scalar`.
    pub fn scalar_multiply(&mut self, scalar: u32)
        ensures
            final(self)@ == times_lanes(old(self)@, splat(scalar)),
    {
        self.data = [
            binary32::times(self.data[0], scalar),
            binary32::times(self.data[1], scalar),
            binary32::times(self.data[2], scalar),
            binary32::times(self.data[3], scalar),
        ];
        assert(self@ =~= times_lanes(old(self)@, splat(scalar)));
    }

    /// Replaces every lane by the larger of it and the same lane of `other`.
    /// A NaN in either gives a NaN.
    pub fn maximum(&mut self, other: &Vector)
        ensures
            final(self)@ == max_lanes(old(self)@, other@),
    {
        self.data = [
            binary32::maximum(self.data[0], other.data[0]),
            binary32::maximum(self.data[1], other.data[1]),
            binary32::maximum(self.data[2], other.data[2]),
            binary32::maximum(self.data[3], other.data[3]),
        ];
        assert(self@ =~= max_lanes(old(self)@, other@));
    }

    /// Replaces every lane by the smaller of it and the same lane of `other`.
    /// A NaN in either gives a NaN.
    pub fn minimum(&mut self, other: &Vector)
        ensures
            final(self)@ == min_lanes(old(self)@, other@),
    {
        self.data = [
            binary32::minimum(self.data[0], other.data[0]),
            binary32::minimum(self.data[1], other.data[1]),
            binary32::minimum(self.data[2], other.data[2]),
            binary32::minimum(self.data[3], other.data[3]),
        ];
        assert(self@ =~= min_lanes(old(self)@, other@));
    }

    /// The dot product of this vector and `other`.
    ///
    /// The four products are added as a tree: lanes 0 and 1, lanes 2 and 3,
    /// then the two partial sums. Where nothing cancels this agrees with a
    /// sum from left to right up to rounding.
    pub fn dot_product(&self, other: &Vector) -> (r: u32)
        ensures
            r == dot_of(self@, other@),
    {
        let r = tree(
            binary32::times(self.data[0], other.data[0]),
            binary32::times(self.data[1], other.data[1]),
            binary32::times(self.data[2], other.data[2]),
            binary32::times(self.data[3], other.data[3]),
        );
        assert(times_lanes(self@, other@) =~= seq![
            binary32::times_of(self@[0], other@[0]),
            binary32::times_of(self@[1], other@[1]),
            binary32::times_of(self@[2], other@[2]),
            binary32::times_of(self@[3], other@[3]),
        ]);
        r
    }

    /// Replaces every lane by its absolute value.
    pub fn abs(&mut self)
        ensures
            final(self)@ == abs_lanes(old(self)@),
    {
        self.data = [
            binary32::abs(self.data[0]),
            binary32::abs(self.data[1]),
            binary32::abs(self.data[2]),
            binary32::abs(self.data[3]),
        ];
        assert(self@ =~= abs_lanes(old(self)@));
    }

    /// Replaces every lane by the absolute value of its difference from the
    /// same lane of `other`.
    pub fn abs_difference(&mut self, other: &Vector)
        ensures
            final(self)@ == abs_diff_lanes(old(self)@, other@),
    {
        self.data = [
            binary32::abs(binary32::minus(self.data[0], other.data[0])),
            binary32::abs(binary32::minus(self.data[1], other.data[1])),
            binary32::abs(binary32::minus(self.data[2], other.data[2])),
            binary32::abs(binary32::minus(self.data[3], other.data[3])),
        ];
        assert(self@ =~= abs_diff_lanes(old(self)@, other@));
    }

    /// The sum of the four lanes, added as a tree.
    pub fn sum(&self) -> (r: u32)
        ensures
            r == tree_sum(self@),
    {
        let r = tree(self.data[0], self.data[1], self.data[2], self.data[3]);
        assert(self@ =~= seq![self@[0], self@[1], self@[2], self@[3]]);
        r
    }

    /// Replaces every lane by its square root, correctly rounded. The root
    /// of a negative number is a NaN.
    pub fn sqrt(&mut self)
        ensures
            final(self)@ == sqrt_lanes(old(self)@),
    {
        self.data = [
            binary32::sqrt(self.data[0]),
            binary32::sqrt(self.data[1]),
            binary32::sqrt(self.data[2]),
            binary32::sqrt(self.data[3]),
        ];
        assert(self@ =~= sqrt_lanes(old(self)@));
    }

    /// Replaces every lane by its opposite.
    pub fn negate(&mut self)
        ensures
            final(self)@ == neg_lanes(old(self)@),
    {
        self.data = [
            binary32::negate(self.data[0]),
            binary32::negate(self.data[1]),
            binary32::negate(self.data[2]),
            binary32::negate(self.data[3]),
        ];
        assert(self@ =~= neg_lanes(old(self)@));
    }

    /// A new vector made of the first two lanes of this vector followed by
    /// the first two lanes of `other`. The last two lanes of either operand
    /// play no part.
    pub fn concat(&self, other: &Vector) -> (v: Vector)
        ensures
            v@ == concat_lanes(self@, other@),
    {
        let v = Vector { data: [self.data[0], self.data[1], other.data[0], other.data[1]] };
        assert(v@ =~= concat_lanes(self@, other@));
        v
    }

    /// Holds every lane between `min` and `max`.
    ///
    /// The upper bound is applied first and the lower bound last. Where the
    /// bounds cross, with `min` above `max`, every lane therefore becomes
    /// `min`. A NaN lane stays a NaN, and a NaN bound makes every lane one.
    pub fn clamp(&mut self, min: u32, max: u32)
        ensures
            final(self)@ == clamp_lanes(old(self)@, min, max),
    {
        self.data = [
            binary32::clamp(self.data[0], min, max),
            binary32::clamp(self.data[1], min, max),
            binary32::clamp(self.data[2], min, max),
            binary32::clamp(self.data[3], min, max),
        ];
        assert(self@ =~= clamp_lanes(old(self)@, min, max));
    }

    /// The Euclidean length of the vector: the square root of the sum of the
    /// squares of its lanes.
    pub fn magnitude(&self) -> (r: u32)
        ensures
            r == length_of(self@),
    {
        binary32::sqrt(self.dot_product(self))
    }

    /// Scales the vector towards length 1, by multiplying every lane with
    /// an estimate of the reciprocal of its length.
    ///
    /// The estimate has eight bits and is not refined, so the new length is
    /// 1 only to within about one part in 256. Nothing guards a length of
    /// zero: its estimate is infinite, and every lane of the zero vector
    /// becomes the default NaN.
    pub fn normalize(&mut self)
        ensures
            final(self)@ == normalize_lanes(old(self)@),
    {
        let estimate = binary32::recip_estimate(self.magnitude());
        self.scalar_multiply(estimate);
    }
}

} // verus!
