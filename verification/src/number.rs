//! Numbers are IEEE 754 binary64 values, carried by their bit patterns.
//!
//! Comparing two numbers and negating one are decided on the bit pattern
//! alone: bit 63 is the sign, the low 63 bits are the magnitude, and a
//! magnitude above that of infinity is a NaN.  Arithmetic that rounds is not
//! done here.

use vstd::prelude::*;

verus! {

/// The bit pattern whose only set bit is the sign.
pub const SIGN: u64 = 0x8000_0000_0000_0000u64;

/// The bit pattern of positive infinity.
pub const INFINITY: u64 = 0x7ff0_0000_0000_0000u64;

/// Whether the sign bit is set.
pub open spec fn is_negative(bits: u64) -> bool {
    bits >= SIGN
}

/// The bit pattern without its sign.
pub open spec fn magnitude(bits: u64) -> int {
    if bits >= SIGN {
        bits - SIGN
    } else {
        bits as int
    }
}

/// Whether the bit pattern is a NaN.
pub open spec fn is_nan(bits: u64) -> bool {
    magnitude(bits) > INFINITY
}

/// Where a number that is not a NaN stands in the order of the numbers:
/// both zeros stand at 0, and a larger magnitude is further from it.
pub open spec fn rank(bits: u64) -> int {
    if is_negative(bits) {
        -magnitude(bits)
    } else {
        magnitude(bits)
    }
}

/// `a == b` on numbers: false where either is a NaN, and the two zeros are
/// equal.
pub open spec fn number_equal(a: u64, b: u64) -> bool {
    !is_nan(a) && !is_nan(b) && rank(a) == rank(b)
}

/// `a < b` on numbers: false where either is a NaN.
pub open spec fn number_less(a: u64, b: u64) -> bool {
    !is_nan(a) && !is_nan(b) && rank(a) < rank(b)
}

/// `a <= b` on numbers: false where either is a NaN.
pub open spec fn number_less_equal(a: u64, b: u64) -> bool {
    !is_nan(a) && !is_nan(b) && rank(a) <= rank(b)
}

/// `-a` on numbers: the same magnitude with the other sign.
pub open spec fn negated(bits: u64) -> u64 {
    if bits >= SIGN {
        (bits - SIGN) as u64
    } else {
        (bits + SIGN) as u64
    }
}

fn unsigned(bits: u64) -> (r: u64)
    ensures
        r == magnitude(bits),
        r < SIGN,
{
    if bits >= SIGN {
        bits - SIGN
    } else {
        bits
    }
}

/// Whether `bits` is a NaN.
pub fn nan(bits: u64) -> (r: bool)
    ensures
        r == is_nan(bits),
{
    unsigned(bits) > INFINITY
}

/// Whether `a == b` as numbers.
pub fn equal(a: u64, b: u64) -> (r: bool)
    ensures
        r == number_equal(a, b),
{
    if nan(a) || nan(b) {
        false
    } else {
        let x = unsigned(a);
        let y = unsigned(b);
        (x == 0 && y == 0) || a == b
    }
}

/// Whether `a < b` as numbers.
pub fn less(a: u64, b: u64) -> (r: bool)
    ensures
        r == number_less(a, b),
{
    if nan(a) || nan(b) {
        false
    } else {
        let x = unsigned(a);
        let y = unsigned(b);
        if a >= SIGN {
            if b >= SIGN {
                y < x
            } else {
                x > 0 || y > 0
            }
        } else {
            if b >= SIGN {
                false
            } else {
                x < y
            }
        }
    }
}

/// Whether `a <= b` as numbers.
pub fn less_equal(a: u64, b: u64) -> (r: bool)
    ensures
        r == number_less_equal(a, b),
{
    less(a, b) || equal(a, b)
}

/// The bit pattern of `-bits`.
pub fn negate(bits: u64) -> (r: u64)
    ensures
        r == negated(bits),
{
    if bits >= SIGN {
        bits - SIGN
    } else {
        bits + SIGN
    }
}

} // verus!
