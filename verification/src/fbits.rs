//! Volume and seek clamping over the raw bit patterns of IEEE-754 doubles.
//!
//! The host's transport API takes double-precision seconds and volume levels.
//! Verified code works on the 64-bit patterns instead: the sign bit, the
//! 11-bit exponent and the 52-bit fraction decide the cases, and on
//! non-negative finite doubles the unsigned order of the bit patterns is the
//! numeric order, so a clamp is a comparison of patterns.

use vstd::prelude::*;

verus! {

/// Bit pattern of the double 0.0.
pub const DBL_BITS_ZERO: u64 = 0;

/// Bit pattern of the double 1.0.
pub const DBL_BITS_ONE: u64 = 0x3ff0_0000_0000_0000;

/// Bit pattern of the double 1.5, the volume ceiling.
pub const DBL_BITS_THREE_HALVES: u64 = 0x3ff8_0000_0000_0000;

/// The 11-bit exponent field of a double's bit pattern.
pub open spec fn dbl_exp(b: u64) -> u64 {
    (b >> 52) & 0x7ff
}

/// Whether the pattern denotes a finite double (exponent field not all ones).
pub open spec fn dbl_is_finite(b: u64) -> bool {
    dbl_exp(b) != 0x7ff
}

/// Whether the sign bit is set, i.e. the double is negative or negative zero.
pub open spec fn dbl_is_sign_neg(b: u64) -> bool {
    (b >> 63) == 1
}

/// What the volume clamp returns: non-finite input coerces to 1.0, anything
/// with the sign bit set to 0.0, anything above 1.5 to 1.5; the rest passes
/// through unchanged.
pub open spec fn spec_clamp_volume(b: u64) -> u64 {
    if !dbl_is_finite(b) {
        DBL_BITS_ONE
    } else if dbl_is_sign_neg(b) {
        DBL_BITS_ZERO
    } else if b > DBL_BITS_THREE_HALVES {
        DBL_BITS_THREE_HALVES
    } else {
        b
    }
}

/// Clamp a volume level, given as a double's bit pattern, to [0.0, 1.5],
/// coercing non-finite input to 1.0.
pub fn clamp_volume_bits(b: u64) -> (r: u64)
    ensures
        r == spec_clamp_volume(b),
{
    if (b >> 52) & 0x7ff == 0x7ff {
        DBL_BITS_ONE
    } else if (b >> 63) == 1 {
        DBL_BITS_ZERO
    } else if b > DBL_BITS_THREE_HALVES {
        DBL_BITS_THREE_HALVES
    } else {
        b
    }
}

/// What the seek clamp returns: negative or non-finite positions become 0.0;
/// the rest passes through unchanged.
pub open spec fn spec_clamp_seek(b: u64) -> u64 {
    if !dbl_is_finite(b) || dbl_is_sign_neg(b) {
        DBL_BITS_ZERO
    } else {
        b
    }
}

/// Whether a double's bit pattern denotes a finite value.
pub fn is_finite_bits(b: u64) -> (r: bool)
    ensures
        r == dbl_is_finite(b),
{
    (b >> 52) & 0x7ff != 0x7ff
}

/// Clamp a seek position, given as a double's bit pattern: negative and
/// non-finite input is treated as position 0.0.
pub fn clamp_seek_bits(b: u64) -> (r: u64)
    ensures
        r == spec_clamp_seek(b),
{
    if (b >> 52) & 0x7ff == 0x7ff || (b >> 63) == 1 {
        DBL_BITS_ZERO
    } else {
        b
    }
}

} // verus!
