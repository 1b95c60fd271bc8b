//! Numbers are IEEE-754 binary64 values, held as their 64-bit patterns.
//!
//! Everything that can be decided from the bit pattern alone is decided
//! here: whether a pattern is a NaN or a zero, how two numbers compare, and
//! what the negation of a number is. Sums, products, quotients, remainders
//! and the decimal text of a number are computed by the embedding program
//! and handed to the machine as bit patterns.

use vstd::prelude::*;

verus! {

/// Two to the power 63: the weight of the sign bit.
pub const SIGN_BIT: u64 = 0x8000_0000_0000_0000u64;

/// Two to the power 52: one more than the largest fraction field.
pub const FRACTION_SPAN: u64 = 0x0010_0000_0000_0000u64;

/// The exponent field of infinities and NaNs.
pub const EXPONENT_MAX: u64 = 2047u64;

/// The exponent field of 1.0.
pub const EXPONENT_BIAS: u64 = 1023u64;

/// The pattern with the sign bit cleared.
pub open spec fn magnitude(bits: u64) -> int {
    bits as int % 0x8000_0000_0000_0000
}

/// Whether the sign bit is set.
pub open spec fn negative(bits: u64) -> bool {
    bits as int >= 0x8000_0000_0000_0000
}

/// The eleven-bit exponent field.
pub open spec fn exponent(bits: u64) -> int {
    (bits as int / 0x0010_0000_0000_0000) % 2048
}

/// The 52-bit fraction field.
pub open spec fn fraction(bits: u64) -> int {
    bits as int % 0x0010_0000_0000_0000
}

/// A NaN has all exponent bits set and a non-zero fraction.
pub open spec fn is_nan(bits: u64) -> bool {
    exponent(bits) == 2047 && fraction(bits) != 0
}

/// Both +0.0 and -0.0.
pub open spec fn is_zero(bits: u64) -> bool {
    magnitude(bits) == 0
}

/// An integer that orders the non-NaN patterns as their values are ordered:
/// the magnitude, negated under the sign bit, so that the two zeros share
/// the key 0.
pub open spec fn order_key(bits: u64) -> int {
    if negative(bits) {
        -magnitude(bits)
    } else {
        magnitude(bits)
    }
}

/// IEEE equality: false if either side is a NaN, otherwise equality of
/// values (the two zeros are equal).
pub open spec fn spec_num_eq(a: u64, b: u64) -> bool {
    !is_nan(a) && !is_nan(b) && order_key(a) == order_key(b)
}

/// IEEE `<`: false if either side is a NaN.
pub open spec fn spec_num_lt(a: u64, b: u64) -> bool {
    !is_nan(a) && !is_nan(b) && order_key(a) < order_key(b)
}

/// The pattern with the sign bit flipped.
pub open spec fn spec_negate(bits: u64) -> u64 {
    if negative(bits) {
        (bits - 0x8000_0000_0000_0000) as u64
    } else {
        (bits + 0x8000_0000_0000_0000) as u64
    }
}

/// Whether the value, cut down to an integer towards zero, is 0: every
/// value of magnitude below one, and every NaN.
pub open spec fn truncates_to_zero(bits: u64) -> bool {
    is_nan(bits) || exponent(bits) < 1023
}

pub fn nan(bits: u64) -> (res: bool)
    ensures
        res == is_nan(bits),
{
    (bits / FRACTION_SPAN) % 2048 == EXPONENT_MAX && bits % FRACTION_SPAN != 0
}

pub fn zero(bits: u64) -> (res: bool)
    ensures
        res == is_zero(bits),
{
    bits % SIGN_BIT == 0
}

pub fn integer_part_is_zero(bits: u64) -> (res: bool)
    ensures
        res == truncates_to_zero(bits),
{
    nan(bits) || (bits / FRACTION_SPAN) % 2048 < EXPONENT_BIAS
}

pub fn num_eq(a: u64, b: u64) -> (res: bool)
    ensures
        res == spec_num_eq(a, b),
{
    if nan(a) || nan(b) {
        false
    } else if a % SIGN_BIT == 0 && b % SIGN_BIT == 0 {
        true
    } else {
        a == b
    }
}

pub fn num_lt(a: u64, b: u64) -> (res: bool)
    ensures
        res == spec_num_lt(a, b),
{
    if nan(a) || nan(b) {
        false
    } else {
        let a_neg = a >= SIGN_BIT;
        let b_neg = b >= SIGN_BIT;
        let a_mag = a % SIGN_BIT;
        let b_mag = b % SIGN_BIT;
        if a_neg && b_neg {
            b_mag < a_mag
        } else if a_neg {
            a_mag != 0 || b_mag != 0
        } else if b_neg {
            false
        } else {
            a_mag < b_mag
        }
    }
}

pub fn negate(bits: u64) -> (res: u64)
    ensures
        res == spec_negate(bits),
        is_nan(res) == is_nan(bits),
        magnitude(res) == magnitude(bits),
        negative(res) != negative(bits),
{
    if bits >= SIGN_BIT {
        bits - SIGN_BIT
    } else {
        bits + SIGN_BIT
    }
}

/// Equality of numbers is reflexive away from NaN.
pub proof fn num_eq_reflexive(x: u64)
    requires
        !is_nan(x),
    ensures
        spec_num_eq(x, x),
{
}

/// Two numbers, neither a NaN, are equal exactly when neither is less than
/// the other.
pub proof fn num_eq_iff_neither_less(x: u64, y: u64)
    requires
        !is_nan(x),
        !is_nan(y),
    ensures
        (!spec_num_lt(x, y) && !spec_num_lt(y, x)) <==> spec_num_eq(x, y),
{
}

/// A NaN is equal to nothing and less than nothing, itself included.
pub proof fn nan_is_unordered(x: u64, y: u64)
    requires
        is_nan(x),
    ensures
        !spec_num_eq(x, y),
        !spec_num_eq(y, x),
        !spec_num_lt(x, y),
        !spec_num_lt(y, x),
{
}

} // verus!
