//! IEEE 754 double-precision numbers, read by their bit patterns: the tests
//! and the orderings that need no rounding.

use vstd::prelude::*;

verus! {

pub const SIGN_BIT: u64 = 0x8000_0000_0000_0000;

pub const MAGNITUDE_MASK: u64 = 0x7FFF_FFFF_FFFF_FFFF;

/// The bits of positive infinity: every larger magnitude is a NaN.
pub const INFINITY_BITS: u64 = 0x7FF0_0000_0000_0000;

/// The bits of the double nearest to the circle constant.
pub const PI_BITS: u64 = 0x4009_21FB_5444_2D18;

/// The bits of `-1`.
pub const NEGATIVE_ONE_BITS: u64 = 0xBFF0_0000_0000_0000;

pub open spec fn magnitude(bits: u64) -> u64 {
    bits & MAGNITUDE_MASK
}

pub open spec fn is_negative(bits: u64) -> bool {
    bits & SIGN_BIT != 0
}

pub open spec fn is_nan(bits: u64) -> bool {
    magnitude(bits) > INFINITY_BITS
}

/// Positive and negative zero.
pub open spec fn is_zero(bits: u64) -> bool {
    magnitude(bits) == 0
}

/// The place of a number that is no NaN in the order of the numbers: the
/// magnitudes of one sign are ordered as their bits are, and the two zeros
/// share a place.
pub open spec fn rank(bits: u64) -> int {
    if is_negative(bits) {
        -(magnitude(bits) as int)
    } else {
        magnitude(bits) as int
    }
}

/// `a < b` on doubles: false where either is a NaN.
pub open spec fn less(a: u64, b: u64) -> bool {
    !is_nan(a) && !is_nan(b) && rank(a) < rank(b)
}

/// `a == b` on doubles: false where either is a NaN.
pub open spec fn equal(a: u64, b: u64) -> bool {
    !is_nan(a) && !is_nan(b) && rank(a) == rank(b)
}

pub fn number_is_nan(bits: u64) -> (r: bool)
    ensures
        r == is_nan(bits),
{
    bits & MAGNITUDE_MASK > INFINITY_BITS
}

pub fn number_is_zero(bits: u64) -> (r: bool)
    ensures
        r == is_zero(bits),
{
    bits & MAGNITUDE_MASK == 0
}

pub fn number_less(a: u64, b: u64) -> (r: bool)
    ensures
        r == less(a, b),
{
    if number_is_nan(a) || number_is_nan(b) {
        return false;
    }
    let a_size = a & MAGNITUDE_MASK;
    let b_size = b & MAGNITUDE_MASK;
    let a_negative = a & SIGN_BIT != 0;
    let b_negative = b & SIGN_BIT != 0;
    if a_negative {
        if b_negative {
            b_size < a_size
        } else {
            a_size != 0 || b_size != 0
        }
    } else {
        if b_negative {
            false
        } else {
            a_size < b_size
        }
    }
}

pub fn number_equal(a: u64, b: u64) -> (r: bool)
    ensures
        r == equal(a, b),
{
    if number_is_nan(a) || number_is_nan(b) {
        return false;
    }
    let a_size = a & MAGNITUDE_MASK;
    let b_size = b & MAGNITUDE_MASK;
    let a_negative = a & SIGN_BIT != 0;
    let b_negative = b & SIGN_BIT != 0;
    if a_negative == b_negative {
        a_size == b_size
    } else {
        a_size == 0 && b_size == 0
    }
}

} // verus!
