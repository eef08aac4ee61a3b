//! Price keys: integers that compare exactly as floating-point prices do.

use vstd::prelude::*;

verus! {

/// The order-preserving image of a floating-point price.
///
/// `Some(k)` stands for a number and `None` for NaN.  Two numbers compare as
/// their keys do (`-0.0` and `0.0` share a key), and every comparison that
/// involves NaN is false, as IEEE 754 has it.
pub type PriceKey = Option<i64>;

/// The largest period the float counters of the kernels hold exactly: up to
/// 2^53 every integer is a 64-bit float, so a walk over integer periods and
/// the same walk in floats agree.
pub const MAX_EXACT_PERIOD: u64 = 9007199254740992u64;

/// `a <= b` on prices.
pub open spec fn key_le(a: PriceKey, b: PriceKey) -> bool {
    match (a, b) {
        (Some(x), Some(y)) => x <= y,
        _ => false,
    }
}

/// `a < b` on prices.
pub open spec fn key_lt(a: PriceKey, b: PriceKey) -> bool {
    match (a, b) {
        (Some(x), Some(y)) => x < y,
        _ => false,
    }
}

/// Executable `a <= b` on prices.
pub fn le(a: PriceKey, b: PriceKey) -> (r: bool)
    ensures
        r == key_le(a, b),
{
    match (a, b) {
        (Some(x), Some(y)) => x <= y,
        _ => false,
    }
}

/// Executable `a < b` on prices.
pub fn lt(a: PriceKey, b: PriceKey) -> (r: bool)
    ensures
        r == key_lt(a, b),
{
    match (a, b) {
        (Some(x), Some(y)) => x < y,
        _ => false,
    }
}

/// The sign bit of a 64-bit float's bit pattern.
pub open spec fn sign_bit_set(bits: u64) -> bool {
    bits >= 0x8000_0000_0000_0000u64
}

/// The bit pattern without its sign: exponent and mantissa.
pub open spec fn magnitude_bits(bits: u64) -> int {
    (bits % 0x8000_0000_0000_0000u64) as int
}

/// Whether a bit pattern encodes NaN: all exponent bits set and a nonzero
/// mantissa, that is, a magnitude above the one of infinity.
pub open spec fn is_nan_bits(bits: u64) -> bool {
    magnitude_bits(bits) > 0x7ff0_0000_0000_0000
}

/// IEEE 754 `a <= b` on the floats encoded by two bit patterns.
///
/// Non-NaN floats of one sign are ordered by their magnitude bits (the
/// exponent field sits above the mantissa), negative ones in reverse; every
/// negative float lies below every positive one, except that `-0.0` equals
/// `0.0`; NaN compares false.
pub open spec fn ieee_le(a: u64, b: u64) -> bool {
    &&& !is_nan_bits(a)
    &&& !is_nan_bits(b)
    &&& if sign_bit_set(a) {
        if sign_bit_set(b) {
            magnitude_bits(b) <= magnitude_bits(a)
        } else {
            true
        }
    } else {
        if sign_bit_set(b) {
            magnitude_bits(a) == 0 && magnitude_bits(b) == 0
        } else {
            magnitude_bits(a) <= magnitude_bits(b)
        }
    }
}

/// IEEE 754 `a < b` on the floats encoded by two bit patterns.
pub open spec fn ieee_lt(a: u64, b: u64) -> bool {
    ieee_le(a, b) && !ieee_le(b, a)
}

/// The key of the float with bit pattern `bits`: its magnitude bits, negated
/// below zero; none for NaN.
pub open spec fn key_of_bits(bits: u64) -> PriceKey {
    if is_nan_bits(bits) {
        None
    } else if sign_bit_set(bits) {
        Some((-magnitude_bits(bits)) as i64)
    } else {
        Some(magnitude_bits(bits) as i64)
    }
}

/// The key of the float with bit pattern `bits` (as `f64::to_bits` gives it).
pub fn price_key_of_bits(bits: u64) -> (k: PriceKey)
    ensures
        k == key_of_bits(bits),
{
    let magnitude: u64 = bits % 0x8000_0000_0000_0000u64;
    if magnitude > 0x7ff0_0000_0000_0000u64 {
        None
    } else if bits >= 0x8000_0000_0000_0000u64 {
        let m: i64 = magnitude as i64;
        Some(-m)
    } else {
        Some(magnitude as i64)
    }
}

/// Keys compare exactly as the floats they stand for: `<=` and `<` on keys
/// are IEEE 754 `<=` and `<` on the floats' bit patterns.
pub proof fn law_keys_order_as_floats(a: u64, b: u64)
    ensures
        key_le(key_of_bits(a), key_of_bits(b)) == ieee_le(a, b),
        key_lt(key_of_bits(a), key_of_bits(b)) == ieee_lt(a, b),
{
}

} // verus!
