//! IEEE-754 binary64 numbers, carried as their 64-bit patterns.
//!
//! Bit 63 is the sign; the low 63 bits are the magnitude (exponent and
//! fraction). Among values that are not NaN, order by sign and magnitude is
//! numeric order, with the two zeros equal. This module decides sign, equality
//! and order on the pattern. Sums, products, quotients and decimal text need
//! rounding and are not computed here.
use vstd::prelude::*;

verus! {

/// The pattern whose only set bit is the sign bit (negative zero).
pub const SIGN_BIT: u64 = 0x8000_0000_0000_0000;

/// The pattern of positive infinity: the largest magnitude that is not a NaN.
pub const INFINITY_BITS: u64 = 0x7ff0_0000_0000_0000;

/// The low 63 bits of a pattern.
pub open spec fn magnitude(bits: u64) -> int {
    if bits >= SIGN_BIT {
        bits - SIGN_BIT
    } else {
        bits as int
    }
}

/// Whether the pattern is a NaN: exponent all ones and a nonzero fraction.
pub open spec fn is_nan(bits: u64) -> bool {
    magnitude(bits) > INFINITY_BITS
}

/// The place of a pattern in numeric order: its magnitude, negated where the
/// sign bit is set. Both zeros have ordinal 0.
pub open spec fn ordinal(bits: u64) -> int {
    if bits >= SIGN_BIT {
        -magnitude(bits)
    } else {
        magnitude(bits)
    }
}

/// Numeric equality: false whenever either side is a NaN.
pub open spec fn numbers_equal(a: u64, b: u64) -> bool {
    !is_nan(a) && !is_nan(b) && ordinal(a) == ordinal(b)
}

/// Numeric `<`: false whenever either side is a NaN.
pub open spec fn number_less(a: u64, b: u64) -> bool {
    !is_nan(a) && !is_nan(b) && ordinal(a) < ordinal(b)
}

/// The pattern with the sign bit flipped.
pub open spec fn negated(bits: u64) -> u64 {
    if bits >= SIGN_BIT {
        (bits - SIGN_BIT) as u64
    } else {
        (bits + SIGN_BIT) as u64
    }
}

/// Tells whether a pattern is a NaN.
pub fn nan(bits: u64) -> (r: bool)
    ensures
        r == is_nan(bits),
{
    let m: u64 = if bits >= SIGN_BIT {
        bits - SIGN_BIT
    } else {
        bits
    };
    m > INFINITY_BITS
}

/// Computes the ordinal of a pattern.
fn place(bits: u64) -> (r: i128)
    ensures
        r == ordinal(bits),
{
    if bits >= SIGN_BIT {
        let m: u64 = bits - SIGN_BIT;
        -(m as i128)
    } else {
        bits as i128
    }
}

/// Numeric equality of two patterns.
pub fn equal(a: u64, b: u64) -> (r: bool)
    ensures
        r == numbers_equal(a, b),
{
    !nan(a) && !nan(b) && place(a) == place(b)
}

/// Numeric `a < b` on two patterns.
pub fn less(a: u64, b: u64) -> (r: bool)
    ensures
        r == number_less(a, b),
{
    !nan(a) && !nan(b) && place(a) < place(b)
}

/// Numeric `a > b` on two patterns.
pub fn greater(a: u64, b: u64) -> (r: bool)
    ensures
        r == number_less(b, a),
{
    less(b, a)
}

/// Flips the sign of a pattern.
pub fn negate(bits: u64) -> (r: u64)
    ensures
        r == negated(bits),
{
    if bits >= SIGN_BIT {
        bits - SIGN_BIT
    } else {
        bits + SIGN_BIT
    }
}

/// Negating twice gives the pattern back.
pub proof fn lemma_negate_twice(bits: u64)
    ensures
        negated(negated(bits)) == bits,
{
}

/// A number that is not a NaN equals itself, and equality is symmetric.
pub proof fn lemma_equal_symmetric(a: u64, b: u64)
    ensures
        numbers_equal(a, b) == numbers_equal(b, a),
        !is_nan(a) ==> numbers_equal(a, a),
{
}

} // verus!
