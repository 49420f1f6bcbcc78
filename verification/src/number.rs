//! Numbers of the language are IEEE-754 binary64 values. The machine never
//! needs their arithmetic to decide anything; it needs their sign, whether
//! they are zero or NaN, and how two of them compare. All of that can be read
//! off the 64-bit encoding, which is what this module works on: bit 63 is the
//! sign, the low 63 bits are the magnitude (exponent, then fraction).

use vstd::prelude::*;

verus! {

/// The encoding's sign bit.
pub const SIGN_BIT: u64 = 0x8000_0000_0000_0000;

/// The magnitude of positive infinity; any larger magnitude encodes a NaN.
pub const INFINITY_MAGNITUDE: u64 = 0x7FF0_0000_0000_0000;

/// The low 63 bits of an encoding.
pub open spec fn magnitude(bits: u64) -> int {
    if bits >= SIGN_BIT {
        bits - SIGN_BIT
    } else {
        bits as int
    }
}

/// Whether the sign bit is set.
pub open spec fn sign_set(bits: u64) -> bool {
    bits >= SIGN_BIT
}

/// Whether the encoding is one of the NaNs.
pub open spec fn nan(bits: u64) -> bool {
    magnitude(bits) > INFINITY_MAGNITUDE
}

/// Whether the encoding is `+0.0` or `-0.0`.
pub open spec fn zero(bits: u64) -> bool {
    magnitude(bits) == 0
}

/// The position of a non-NaN encoding on the number line: encodings with the
/// sign bit clear ascend with their magnitude, those with it set descend, and
/// the two zeros share position 0.
pub open spec fn rank(bits: u64) -> int {
    if sign_set(bits) {
        -magnitude(bits)
    } else {
        magnitude(bits)
    }
}

/// IEEE equality: a NaN equals nothing, `+0.0` equals `-0.0`, and otherwise
/// two numbers are equal exactly when their encodings are.
pub open spec fn equal(a: u64, b: u64) -> bool {
    !nan(a) && !nan(b) && rank(a) == rank(b)
}

/// IEEE `<`: false whenever a NaN takes part, otherwise the order of the
/// number line.
pub open spec fn less(a: u64, b: u64) -> bool {
    !nan(a) && !nan(b) && rank(a) < rank(b)
}

/// The encoding with the sign bit flipped.
pub open spec fn negated(bits: u64) -> u64 {
    if bits >= SIGN_BIT {
        (bits - SIGN_BIT) as u64
    } else {
        (bits + SIGN_BIT) as u64
    }
}

fn magnitude_of(bits: u64) -> (m: u64)
    ensures
        m == magnitude(bits),
{
    if bits >= SIGN_BIT {
        bits - SIGN_BIT
    } else {
        bits
    }
}

/// Tells whether `bits` encodes a NaN.
pub fn is_nan(bits: u64) -> (r: bool)
    ensures
        r == nan(bits),
{
    magnitude_of(bits) > INFINITY_MAGNITUDE
}

/// Tells whether `bits` encodes one of the two zeros.
pub fn is_zero(bits: u64) -> (r: bool)
    ensures
        r == zero(bits),
{
    magnitude_of(bits) == 0
}

/// Compares two numbers for IEEE equality.
pub fn is_equal(a: u64, b: u64) -> (r: bool)
    ensures
        r == equal(a, b),
{
    if is_nan(a) || is_nan(b) {
        false
    } else {
        a == b || (is_zero(a) && is_zero(b))
    }
}

/// Tells whether `a < b` in IEEE order.
pub fn is_less(a: u64, b: u64) -> (r: bool)
    ensures
        r == less(a, b),
{
    if is_nan(a) || is_nan(b) {
        false
    } else {
        let ma: u64 = magnitude_of(a);
        let mb: u64 = magnitude_of(b);
        if a >= SIGN_BIT {
            if b >= SIGN_BIT {
                ma > mb
            } else {
                ma > 0 || mb > 0
            }
        } else {
            if b >= SIGN_BIT {
                false
            } else {
                ma < mb
            }
        }
    }
}

/// Flips the sign of a number. Like the hardware operation this touches the
/// sign bit only, also on zeros, infinities and NaNs.
pub fn negate(bits: u64) -> (r: u64)
    ensures
        r == negated(bits),
{
    if bits >= SIGN_BIT {
        bits - SIGN_BIT
    } else {
        bits + SIGN_BIT
    }
}

} // verus!
