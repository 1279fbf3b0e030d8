//! The ordering of IEEE 754 binary64 values, read from their bit patterns.
//!
//! A value is handed over as the `u64` that `f64::to_bits` gives. Two values
//! that are not NaN compare as their keys do: the magnitude bits, negated
//! when the sign bit is set, so that `-0.0` and `+0.0` share the key 0. A NaN
//! compares as neither less than, equal to nor greater than anything.
use vstd::prelude::*;

verus! {

/// Bit pattern of `0.0`.
pub const ZERO_BITS: u64 = 0;

/// Bit pattern of `1.0`.
pub const ONE_BITS: u64 = 0x3ff0_0000_0000_0000;

pub open spec fn is_nan_bits(b: u64) -> bool {
    (b >> 52u64) & 0x7ffu64 == 0x7ffu64 && b & 0xf_ffff_ffff_ffffu64 != 0
}

pub open spec fn magnitude_bits(b: u64) -> u64 {
    b & 0x7fff_ffff_ffff_ffffu64
}

/// Position of a value on the number line: equal keys for equal values.
pub open spec fn order_key(b: u64) -> int {
    if b >> 63u64 == 1 {
        -(magnitude_bits(b) as int)
    } else {
        magnitude_bits(b) as int
    }
}

/// `a < b` on the values that the two patterns encode.
pub open spec fn lt_bits(a: u64, b: u64) -> bool {
    !is_nan_bits(a) && !is_nan_bits(b) && order_key(a) < order_key(b)
}

/// `a == b` on the values that the two patterns encode.
pub open spec fn eq_bits(a: u64, b: u64) -> bool {
    !is_nan_bits(a) && !is_nan_bits(b) && order_key(a) == order_key(b)
}

/// Whether `b` encodes NaN.
pub fn is_nan(b: u64) -> (r: bool)
    ensures
        r == is_nan_bits(b),
{
    (b >> 52u64) & 0x7ffu64 == 0x7ffu64 && b & 0xf_ffff_ffff_ffffu64 != 0
}

/// The key of `b` as a machine integer.
pub fn key(b: u64) -> (r: i64)
    ensures
        r as int == order_key(b),
{
    let m: u64 = b & 0x7fff_ffff_ffff_ffffu64;
    assert(m <= 0x7fff_ffff_ffff_ffffu64) by (bit_vector)
        requires
            m == b & 0x7fff_ffff_ffff_ffffu64,
    ;
    if b >> 63u64 == 1 {
        -(m as i64)
    } else {
        m as i64
    }
}

/// `a < b` as `f64` comparison gives it.
pub fn lt(a: u64, b: u64) -> (r: bool)
    ensures
        r == lt_bits(a, b),
{
    !is_nan(a) && !is_nan(b) && key(a) < key(b)
}

/// `a == b` as `f64` comparison gives it.
pub fn eq(a: u64, b: u64) -> (r: bool)
    ensures
        r == eq_bits(a, b),
{
    !is_nan(a) && !is_nan(b) && key(a) == key(b)
}

} // verus!
