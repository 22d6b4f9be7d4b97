//! Patterns that are not numbers, and which of them an operation returns.

use vstd::prelude::*;
use crate::binary32::{fraction_field, is_nan, quieted, HIDDEN, INFINITY, QUIET, SIGN};

verus! {

/// The pattern is a signalling NaN: a NaN whose quiet bit is clear.
pub open spec fn is_signalling(b: u32) -> bool {
    is_nan(b) && fraction_field(b) < QUIET
}

/// The NaN that an operation on `a` and `b` returns when at least one of
/// them is a NaN. A signalling NaN is taken before a quiet one and the first
/// operand before the second; the one taken is returned quiet.
pub open spec fn propagated_nan(a: u32, b: u32) -> u32 {
    if is_signalling(a) {
        quieted(a)
    } else if is_signalling(b) {
        quieted(b)
    } else if is_nan(a) {
        a
    } else {
        b
    }
}

/// Whether the pattern is a NaN.
pub(crate) fn check_nan(b: u32) -> (r: bool)
    ensures
        r == is_nan(b),
{
    b % SIGN > INFINITY
}

/// The NaN that comes out of an operation with at least one NaN operand.
pub(crate) fn propagate(a: u32, b: u32) -> (r: u32)
    requires
        is_nan(a) || is_nan(b),
    ensures
        r == propagated_nan(a, b),
{
    let a_signals = check_nan(a) && a % HIDDEN < QUIET;
    let b_signals = check_nan(b) && b % HIDDEN < QUIET;
    if a_signals {
        a + QUIET
    } else if b_signals {
        b + QUIET
    } else if check_nan(a) {
        a
    } else {
        b
    }
}

/// A NaN made quiet is still a NaN.
pub proof fn lemma_quieted_nan(b: u32)
    ensures
        is_nan(b) ==> is_nan(quieted(b)) && !is_signalling(quieted(b)),
{
}

} // verus!
