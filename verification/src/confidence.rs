//! Confidences are IEEE-754 binary64 numbers carried as their bit patterns
//! (`f64::to_bits`). For non-negative numbers the order of the patterns is
//! the order of the numbers, so the checks that the relation table makes
//! and the clamping that manual edits apply are written on the patterns.

use vstd::prelude::*;

verus! {

/// The bits of `1.0`.
pub const ONE_BITS: u64 = 0x3FF0_0000_0000_0000;

/// The bits of `-0.0`: the sign bit alone.
pub const SIGN_BIT: u64 = 0x8000_0000_0000_0000;

/// The bits of positive infinity: every exponent bit, no fraction bit.
pub const INFINITY_BITS: u64 = 0x7FF0_0000_0000_0000;

/// The pattern without its sign bit.
pub open spec fn magnitude_bits(b: u64) -> u64 {
    if b >= SIGN_BIT {
        (b - SIGN_BIT) as u64
    } else {
        b
    }
}

/// The pattern is a NaN: every exponent bit and some fraction bit set.
pub open spec fn is_nan_bits(b: u64) -> bool {
    magnitude_bits(b) > INFINITY_BITS
}

/// The number lies in `0.0..=1.0` (`-0.0` included), as the relation
/// table's check `confidence >= 0 AND confidence <= 1` accepts it.
pub open spec fn fits_unit_range(b: u64) -> bool {
    b <= ONE_BITS || b == SIGN_BIT
}

/// `f64::clamp(x, 0.0, 1.0)` on patterns: a NaN and `-0.0` stay, numbers
/// below zero become `0.0`, numbers above one become `1.0`.
pub open spec fn clamped(b: u64) -> u64 {
    if is_nan_bits(b) {
        b
    } else if b > SIGN_BIT {
        0
    } else if b == SIGN_BIT {
        b
    } else if b > ONE_BITS {
        ONE_BITS
    } else {
        b
    }
}

/// Whether the pattern is a NaN.
pub fn is_nan_confidence(bits: u64) -> (out: bool)
    ensures
        out == is_nan_bits(bits),
{
    let magnitude = if bits >= SIGN_BIT {
        bits - SIGN_BIT
    } else {
        bits
    };
    magnitude > INFINITY_BITS
}

/// Whether the number lies in `0.0..=1.0`.
pub fn confidence_fits(bits: u64) -> (out: bool)
    ensures
        out == fits_unit_range(bits),
{
    bits <= ONE_BITS || bits == SIGN_BIT
}

/// `f64::clamp(x, 0.0, 1.0)` on patterns.
pub fn clamp_confidence(bits: u64) -> (out: u64)
    ensures
        out == clamped(bits),
        !is_nan_bits(bits) ==> fits_unit_range(out),
{
    if is_nan_confidence(bits) {
        bits
    } else if bits > SIGN_BIT {
        0
    } else if bits == SIGN_BIT {
        bits
    } else if bits > ONE_BITS {
        ONE_BITS
    } else {
        bits
    }
}

} // verus!
