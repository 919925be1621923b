//! The ordering of IEEE 754 double precision values, read from their bit patterns.
//!
//! Scalars (penetration depths, distances, times of impact) reach the library as the
//! bit pattern of an `f64` (`f64::to_bits`). For values that are not NaN, the order of
//! the numbers is the order of their signed magnitude: the low 63 bits, negated when
//! the sign bit is set. Both zeros have ordinal 0, so they compare equal, as `==` and
//! `partial_cmp` on floats do.
use vstd::prelude::*;
use crate::float_value::{
    is_ieee_nan,
    real_lt,
    lemma_nan_bits_are_ieee_nans,
    lemma_float_lt_is_real_lt,
};

verus! {

/// Bit pattern of positive infinity; magnitudes above it are NaN.
pub const INFINITY_BITS: u64 = 0x7ff0_0000_0000_0000;

/// Value of the sign bit.
pub const SIGN_BIT: u64 = 0x8000_0000_0000_0000;

/// The low 63 bits: exponent and mantissa.
pub open spec fn magnitude(b: u64) -> int {
    (b % SIGN_BIT) as int
}

/// Whether the sign bit is set.
pub open spec fn negative(b: u64) -> bool {
    b >= SIGN_BIT
}

/// NaN: all exponent bits set and a nonzero mantissa.
pub open spec fn nan_bits(b: u64) -> bool {
    magnitude(b) > INFINITY_BITS
}

/// Position of the value on the number line; for non-NaN values `x < y` as floats
/// exactly when `ordinal(x) < ordinal(y)`.
pub open spec fn ordinal(b: u64) -> int {
    if negative(b) {
        -magnitude(b)
    } else {
        magnitude(b)
    }
}

/// `x < y` on floats: false as soon as one of them is NaN.
pub open spec fn float_lt(x: u64, y: u64) -> bool {
    !nan_bits(x) && !nan_bits(y) && ordinal(x) < ordinal(y)
}

/// Whether the bit pattern is a NaN.
pub fn is_nan(b: u64) -> (r: bool)
    ensures
        r == nan_bits(b),
        r == is_ieee_nan(b),
{
    proof {
        lemma_nan_bits_are_ieee_nans(b);
    }
    b % SIGN_BIT > INFINITY_BITS
}

/// The ordinal of a bit pattern; it always fits in an `i64`.
pub fn ordinal_of(b: u64) -> (r: i64)
    ensures
        r == ordinal(b),
{
    let m: u64 = b % SIGN_BIT;
    if b >= SIGN_BIT {
        -(m as i64)
    } else {
        m as i64
    }
}

/// `x < y` on the floats with these bit patterns.
pub fn less_than(x: u64, y: u64) -> (r: bool)
    ensures
        r == float_lt(x, y),
        r == (!is_ieee_nan(x) && !is_ieee_nan(y) && real_lt(x, y)),
{
    proof {
        lemma_float_lt_is_real_lt(x, y);
    }
    !is_nan(x) && !is_nan(y) && ordinal_of(x) < ordinal_of(y)
}

} // verus!
