//! Operations on the sign bit alone.

use vstd::prelude::*;
use crate::binary32::{abs_of, negated, SIGN};

verus! {

/// The absolute value: the same pattern with the sign bit clear. A NaN
/// loses its sign like any number.
pub fn abs(b: u32) -> (r: u32)
    ensures
        r == abs_of(b),
{
    b % SIGN
}

/// The opposite: the same pattern with the other sign. A NaN changes its
/// sign like any number.
pub fn negate(b: u32) -> (r: u32)
    ensures
        r == negated(b),
{
    if b >= SIGN {
        b - SIGN
    } else {
        b + SIGN
    }
}

} // verus!
