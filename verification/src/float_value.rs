//! The number that an IEEE 754 double precision bit pattern stands for, and the laws
//! that tie the bit-pattern order of `float_order` to the order of those numbers.
//!
//! A pattern has a sign bit, an 11-bit exponent field and a 52-bit fraction field. With
//! exponent field `e` and fraction `f`, a finite value is `f * 2^-1074` when `e == 0`
//! (subnormal) and `(2^52 + f) * 2^(e - 1075)` otherwise. Every finite value is thus an
//! integer multiple of `2^-1074`; `scaled_value` is that integer, so two finite values
//! compare as reals exactly as their scaled values compare as integers. The exponent
//! field `0x7ff` marks the infinities (fraction 0) and the NaNs (fraction not 0).
use vstd::prelude::*;
use vstd::arithmetic::power2::{pow2, lemma_pow2_pos, lemma_pow2_unfold, lemma_pow2_strictly_increases};
use vstd::arithmetic::mul::{lemma_mul_inequality, lemma_mul_strict_inequality};
use crate::float_order::{magnitude, negative, nan_bits, ordinal, float_lt, INFINITY_BITS};

verus! {

/// `2^52`, the weight of the lowest exponent bit.
pub open spec fn hidden_bit() -> int {
    0x10_0000_0000_0000
}

/// The 11-bit exponent field.
pub open spec fn exponent_field(b: u64) -> int {
    ((b / 0x10_0000_0000_0000u64) % 0x800u64) as int
}

/// The 52-bit fraction field.
pub open spec fn fraction_field(b: u64) -> int {
    (b % 0x10_0000_0000_0000u64) as int
}

/// The sign bit, the top bit of the pattern.
pub open spec fn sign_bit_set(b: u64) -> bool {
    b / 0x8000_0000_0000_0000u64 == 1
}

/// An IEEE 754 NaN: exponent bits all set and a nonzero fraction.
pub open spec fn is_ieee_nan(b: u64) -> bool {
    exponent_field(b) == 0x7ff && fraction_field(b) != 0
}

/// An IEEE 754 infinity: exponent bits all set and a zero fraction.
pub open spec fn is_ieee_infinite(b: u64) -> bool {
    exponent_field(b) == 0x7ff && fraction_field(b) == 0
}

/// `|x| * 2^1074` for the finite value `x` with exponent field `e` and fraction `f`.
pub open spec fn scaled_from_fields(e: int, f: int) -> int {
    if e == 0 {
        f
    } else {
        (f + hidden_bit()) * pow2((e - 1) as nat)
    }
}

/// `x * 2^1074` for the finite value `x` of the pattern `b`.
pub open spec fn scaled_value(b: u64) -> int {
    let m = scaled_from_fields(exponent_field(b), fraction_field(b));
    if sign_bit_set(b) {
        -m
    } else {
        m
    }
}

/// `x < y` on the real numbers extended by the two infinities, for patterns that are
/// not NaN.
pub open spec fn real_lt(x: u64, y: u64) -> bool {
    if is_ieee_infinite(y) {
        !sign_bit_set(y) && !(is_ieee_infinite(x) && !sign_bit_set(x))
    } else if is_ieee_infinite(x) {
        sign_bit_set(x)
    } else {
        scaled_value(x) < scaled_value(y)
    }
}

proof fn lemma_fields(b: u64)
    ensures
        magnitude(b) == exponent_field(b) * hidden_bit() + fraction_field(b),
        0 <= fraction_field(b) < hidden_bit(),
        0 <= exponent_field(b) < 0x800,
        negative(b) == sign_bit_set(b),
{
    assert(b % 0x8000_0000_0000_0000u64 == ((b / 0x10_0000_0000_0000u64) % 0x800u64)
        * 0x10_0000_0000_0000u64 + b % 0x10_0000_0000_0000u64) by (bit_vector);
    assert((b >= 0x8000_0000_0000_0000u64) == (b / 0x8000_0000_0000_0000u64 == 1u64))
        by (bit_vector);
    assert(b % 0x10_0000_0000_0000u64 < 0x10_0000_0000_0000u64) by (bit_vector);
    assert((b / 0x10_0000_0000_0000u64) % 0x800u64 < 0x800u64) by (bit_vector);
}

/// The scaled magnitude grows strictly with the exponent-and-fraction bits, over the
/// finite values.
proof fn lemma_scaled_strictly_increases(e1: int, f1: int, e2: int, f2: int)
    requires
        0 <= e1 < 0x7ff,
        0 <= e2 < 0x7ff,
        0 <= f1 < hidden_bit(),
        0 <= f2 < hidden_bit(),
        e1 * hidden_bit() + f1 < e2 * hidden_bit() + f2,
    ensures
        scaled_from_fields(e1, f1) < scaled_from_fields(e2, f2),
{
    let h = hidden_bit();
    if e1 == e2 {
        if e1 != 0 {
            let p = pow2((e1 - 1) as nat);
            lemma_pow2_pos((e1 - 1) as nat);
            lemma_mul_strict_inequality(f1 + h, f2 + h, p as int);
        }
    } else {
        assert(e1 < e2);
        let p2 = pow2((e2 - 1) as nat) as int;
        lemma_pow2_pos((e2 - 1) as nat);
        // the second value is at least 2^52 * p2
        lemma_mul_inequality(h, f2 + h, p2);
        assert(h * p2 <= scaled_from_fields(e2, f2));
        if e1 == 0 {
            lemma_mul_inequality(1, p2, h);
            assert(h <= h * p2);
        } else {
            let p1 = pow2((e1 - 1) as nat) as int;
            lemma_pow2_pos((e1 - 1) as nat);
            lemma_pow2_unfold(e1 as nat);
            // (f1 + 2^52) * p1 < 2^53 * p1 = 2^52 * 2^e1
            lemma_mul_strict_inequality(f1 + h, 2 * h, p1);
            assert((2 * h) * p1 == h * (2 * p1)) by (nonlinear_arith);
            let q = pow2(e1 as nat) as int;
            assert(q == 2 * p1);
            if e1 < e2 - 1 {
                lemma_pow2_strictly_increases(e1 as nat, (e2 - 1) as nat);
            }
            assert(q <= p2);
            lemma_mul_inequality(q, p2, h);
            assert(q * h == h * q && p2 * h == h * p2) by (nonlinear_arith);
        }
    }
}

/// Facts about a pattern that is not NaN: it is infinite exactly when its magnitude is
/// that of infinity; if finite, its scaled magnitude is 0 exactly at magnitude 0.
proof fn lemma_not_nan_facts(b: u64)
    requires
        !is_ieee_nan(b),
    ensures
        is_ieee_infinite(b) <==> magnitude(b) == INFINITY_BITS,
        magnitude(b) <= INFINITY_BITS,
        !is_ieee_infinite(b) ==> exponent_field(b) < 0x7ff,
        !is_ieee_infinite(b) ==> (scaled_from_fields(exponent_field(b), fraction_field(b)) == 0
            <==> magnitude(b) == 0),
        scaled_from_fields(exponent_field(b), fraction_field(b)) >= 0,
{
    lemma_fields(b);
    let e = exponent_field(b);
    let f = fraction_field(b);
    if e != 0 {
        lemma_pow2_pos((e - 1) as nat);
        lemma_mul_inequality(0, f + hidden_bit(), pow2((e - 1) as nat) as int);
    }
    if !is_ieee_infinite(b) && magnitude(b) != 0 {
        lemma_scaled_strictly_increases(0, 0, e, f);
    }
}

/// Two finite patterns compare by magnitude as their scaled magnitudes compare.
proof fn lemma_finite_magnitudes(x: u64, y: u64)
    requires
        !is_ieee_nan(x),
        !is_ieee_nan(y),
        !is_ieee_infinite(x),
        !is_ieee_infinite(y),
    ensures
        magnitude(x) < magnitude(y) ==> scaled_from_fields(exponent_field(x), fraction_field(x))
            < scaled_from_fields(exponent_field(y), fraction_field(y)),
        magnitude(x) == magnitude(y) ==> scaled_from_fields(exponent_field(x), fraction_field(x))
            == scaled_from_fields(exponent_field(y), fraction_field(y)),
{
    lemma_fields(x);
    lemma_fields(y);
    lemma_not_nan_facts(x);
    lemma_not_nan_facts(y);
    if magnitude(x) < magnitude(y) {
        lemma_scaled_strictly_increases(
            exponent_field(x),
            fraction_field(x),
            exponent_field(y),
            fraction_field(y),
        );
    }
    if magnitude(x) == magnitude(y) {
        assert(exponent_field(x) == exponent_field(y));
    }
}

/// `nan_bits` holds exactly for the IEEE 754 NaN patterns; in particular no finite
/// value and no infinity is ever taken for a NaN.
pub proof fn lemma_nan_bits_are_ieee_nans(b: u64)
    ensures
        nan_bits(b) <==> is_ieee_nan(b),
{
    lemma_fields(b);
}

/// The ordinal of a pattern follows the number it stands for: for two patterns that are
/// not NaN, `ordinal(x) < ordinal(y)` exactly when `x < y` as (extended) reals, and the
/// ordinals are equal exactly when the numbers are (so `-0.0` and `0.0` tie).
pub proof fn lemma_ordinal_follows_value(x: u64, y: u64)
    requires
        !is_ieee_nan(x),
        !is_ieee_nan(y),
    ensures
        ordinal(x) < ordinal(y) <==> real_lt(x, y),
        ordinal(x) == ordinal(y) <==> (!real_lt(x, y) && !real_lt(y, x)),
{
    lemma_fields(x);
    lemma_fields(y);
    lemma_not_nan_facts(x);
    lemma_not_nan_facts(y);
    if !is_ieee_infinite(x) && !is_ieee_infinite(y) {
        lemma_finite_magnitudes(x, y);
        lemma_finite_magnitudes(y, x);
    }
}

/// `float_lt` is `<` on the numbers: false when either pattern is a NaN, and otherwise
/// the order of the (extended) reals.
pub proof fn lemma_float_lt_is_real_lt(x: u64, y: u64)
    ensures
        float_lt(x, y) <==> (!is_ieee_nan(x) && !is_ieee_nan(y) && real_lt(x, y)),
{
    lemma_nan_bits_are_ieee_nans(x);
    lemma_nan_bits_are_ieee_nans(y);
    if !is_ieee_nan(x) && !is_ieee_nan(y) {
        lemma_ordinal_follows_value(x, y);
    }
}

} // verus!
