//! Four-lane vectors of 32-bit lanes, in two kinds.
//!
//! [`Vector`] holds four single-precision numbers and [`IntVector`] four
//! signed integers. Every operation is either a lanewise transform that
//! replaces the lanes of the receiver, or a reduction that collapses the four
//! lanes into one scalar. No operation panics: integer arithmetic wraps
//! modulo 2^32, and single-precision arithmetic rounds to nearest, overflows
//! to infinity and answers what has no value with a NaN.
//!
//! Single-precision lanes are held and passed as their 32-bit patterns, and
//! all arithmetic on them is integer arithmetic on those patterns
//! ([`binary32`]), so that every result is defined to the last bit. A caller
//! that holds floats converts with `to_bits` and `from_bits`.
//!
//! * [`binary32`] is the arithmetic on one pattern: sums, products, roots,
//!   reciprocal estimates, the larger and the smaller of two numbers.
//! * [`float_lanes`] and [`int_lanes`] are the mathematical models: what
//!   each operation means on a sequence of four lanes.
//! * [`float_vector`] and [`int_vector`] are the executable types.
//! * [`float_laws`] and [`int_laws`] state what holds of every vector.
//!
//! Two operations are approximate or surprising by design, and are kept so.
//! [`Vector::normalize`] multiplies by an eight-bit estimate of the
//! reciprocal of the length instead of dividing by the length, and
//! [`IntVector::sqrt`] takes the square root of the single-precision number
//! that the bits of an integer lane spell, not of the integer.

use vstd::prelude::*;

pub mod binary32;
pub mod float_lanes;
pub mod float_laws;
pub mod float_vector;
pub mod int_lanes;
pub mod int_laws;
pub mod int_vector;

pub use float_vector::Vector;
pub use int_vector::IntVector;

verus! {

/// Number of lanes in a vector.
pub const LANES: usize = 4;

} // verus!
