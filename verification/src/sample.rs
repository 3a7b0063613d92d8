//! Sample values.
//!
//! A sample value is an IEEE 754 double-precision number. The library never
//! computes with such numbers; it only has to tell the special values apart
//! and to replace the two infinities. Both can be decided on the 64-bit
//! pattern of the number, so a value is carried as that pattern.

use vstd::prelude::*;

verus! {

/// Bit pattern of positive infinity.
pub const POSITIVE_INFINITY: u64 = 0x7FF0_0000_0000_0000;

/// Bit pattern of negative infinity.
pub const NEGATIVE_INFINITY: u64 = 0xFFF0_0000_0000_0000;

/// Bit pattern of the largest finite value.
pub const LARGEST_FINITE: u64 = 0x7FEF_FFFF_FFFF_FFFF;

/// Bit pattern of the smallest (most negative) finite value.
pub const SMALLEST_FINITE: u64 = 0xFFEF_FFFF_FFFF_FFFF;

/// The pattern with its sign bit cleared: exponent and fraction.
pub open spec fn magnitude(bits: u64) -> int {
    if bits >= 0x8000_0000_0000_0000 {
        bits - 0x8000_0000_0000_0000
    } else {
        bits as int
    }
}

/// Not a number: the exponent is all ones and the fraction is not zero.
pub open spec fn is_nan(bits: u64) -> bool {
    magnitude(bits) > 0x7FF0_0000_0000_0000
}

/// An infinity: the exponent is all ones and the fraction is zero.
pub open spec fn is_infinite(bits: u64) -> bool {
    magnitude(bits) == 0x7FF0_0000_0000_0000
}

/// A finite number: the exponent is not all ones.
pub open spec fn is_finite(bits: u64) -> bool {
    magnitude(bits) < 0x7FF0_0000_0000_0000
}

/// What is stored for a sample value: nothing for a value that is not a
/// number, the largest finite value for positive infinity, the smallest
/// finite value for negative infinity, and any other value itself.
pub open spec fn stored(bits: u64) -> Option<u64> {
    if is_nan(bits) {
        None
    } else if bits == POSITIVE_INFINITY {
        Some(LARGEST_FINITE)
    } else if bits == NEGATIVE_INFINITY {
        Some(SMALLEST_FINITE)
    } else {
        Some(bits)
    }
}

/// Tells whether the pattern stands for a value that is not a number.
pub fn value_is_nan(bits: u64) -> (r: bool)
    ensures
        r == is_nan(bits),
{
    let cleared: u64 = if bits >= 0x8000_0000_0000_0000 {
        bits - 0x8000_0000_0000_0000
    } else {
        bits
    };
    cleared > 0x7FF0_0000_0000_0000
}

/// Decides what is stored for a sample value.
///
/// A value that is not a number is dropped, an infinity is replaced by the
/// finite value nearest to it, and every finite value is kept as it is.
pub fn store_value(bits: u64) -> (r: Option<u64>)
    ensures
        r == stored(bits),
        r matches Some(kept) ==> is_finite(kept),
        r is None <==> is_nan(bits),
{
    if value_is_nan(bits) {
        None
    } else if bits == POSITIVE_INFINITY {
        Some(LARGEST_FINITE)
    } else if bits == NEGATIVE_INFINITY {
        Some(SMALLEST_FINITE)
    } else {
        Some(bits)
    }
}

/// No stored value is an infinity or not a number, and a finite value is
/// stored unchanged.
pub proof fn lemma_stored_is_finite(bits: u64)
    ensures
        stored(bits) matches Some(kept) ==> is_finite(kept) && !is_nan(kept) && !is_infinite(kept),
        is_nan(bits) <==> stored(bits) is None,
        is_finite(bits) ==> stored(bits) == Some(bits),
        bits == POSITIVE_INFINITY ==> stored(bits) == Some(LARGEST_FINITE),
        bits == NEGATIVE_INFINITY ==> stored(bits) == Some(SMALLEST_FINITE),
{
}

} // verus!
