//! Reading IEEE 754 binary64 values through their bit patterns.
//!
//! The measurement logic only ever compares values: is a sample finite, does it reach the clip
//! level, which bin holds the most power, where does the gain cross a level. Those comparisons
//! are decided here on the 64-bit patterns (`f64::to_bits`), so that the decisions can be
//! proved. Two facts of the binary64 format connect the patterns to the values: a pattern is
//! finite exactly when its exponent field is not all ones, and finite values are ordered as
//! their signed magnitudes (sign bit, then the remaining 63 bits read as an unsigned integer),
//! with `+0` and `-0` equal.

use vstd::prelude::*;

verus! {

/// The sign bit of a binary64 pattern.
pub open spec fn sign_bit() -> u64 {
    0x8000_0000_0000_0000u64
}

/// Every bit but the sign.
pub open spec fn magnitude_mask() -> u64 {
    0x7fff_ffff_ffff_ffffu64
}

/// The pattern's exponent field is not all ones: the value is neither infinite nor NaN.
pub open spec fn finite_bits(b: u64) -> bool {
    (b & 0x7ff0_0000_0000_0000u64) != 0x7ff0_0000_0000_0000u64
}

/// The pattern encodes a NaN: exponent all ones, fraction not zero.
pub open spec fn nan_bits(b: u64) -> bool {
    (b & 0x7fff_ffff_ffff_ffffu64) > 0x7ff0_0000_0000_0000u64
}

/// The magnitude part of a pattern: what `f64::abs` keeps.
pub open spec fn magnitude(b: u64) -> u64 {
    b & 0x7fff_ffff_ffff_ffffu64
}

/// The value a pattern stands for, up to order: its signed magnitude.
pub open spec fn signed_magnitude(b: u64) -> int {
    if b & sign_bit() != 0 {
        -(magnitude(b) as int)
    } else {
        magnitude(b) as int
    }
}

/// An unsigned key that orders patterns as their signed magnitudes, with `-0` and `+0` equal.
pub open spec fn order_key_spec(b: u64) -> u64 {
    if b & sign_bit() != 0 {
        if magnitude(b) == 0 {
            sign_bit()
        } else {
            !b
        }
    } else {
        b | sign_bit()
    }
}

/// Whether a pattern is finite.
pub fn is_finite_bits(b: u64) -> (r: bool)
    ensures
        r == finite_bits(b),
{
    (b & 0x7ff0_0000_0000_0000u64) != 0x7ff0_0000_0000_0000u64
}

/// Whether a pattern is a NaN.
pub fn is_nan_bits(b: u64) -> (r: bool)
    ensures
        r == nan_bits(b),
{
    (b & 0x7fff_ffff_ffff_ffffu64) > 0x7ff0_0000_0000_0000u64
}

/// The magnitude part of a pattern.
pub fn magnitude_of(b: u64) -> (r: u64)
    ensures
        r == magnitude(b),
{
    b & 0x7fff_ffff_ffff_ffffu64
}

/// The ordering key of a pattern.
pub fn order_key(b: u64) -> (r: u64)
    ensures
        r == order_key_spec(b),
{
    if b & 0x8000_0000_0000_0000u64 != 0 {
        if b & 0x7fff_ffff_ffff_ffffu64 == 0 {
            0x8000_0000_0000_0000u64
        } else {
            !b
        }
    } else {
        b | 0x8000_0000_0000_0000u64
    }
}

/// The key orders patterns exactly as their signed magnitudes are ordered.
pub proof fn lemma_order_key_orders_values(a: u64, b: u64)
    ensures
        (order_key_spec(a) < order_key_spec(b)) <==> (signed_magnitude(a) < signed_magnitude(b)),
        (order_key_spec(a) == order_key_spec(b)) <==> (signed_magnitude(a) == signed_magnitude(b)),
{
    assert(a & 0x8000_0000_0000_0000u64 != 0 ==> a & 0x7fff_ffff_ffff_ffffu64 == a - 0x8000_0000_0000_0000u64) by (bit_vector);
    assert(a & 0x8000_0000_0000_0000u64 == 0 ==> a & 0x7fff_ffff_ffff_ffffu64 == a) by (bit_vector);
    assert(b & 0x8000_0000_0000_0000u64 != 0 ==> b & 0x7fff_ffff_ffff_ffffu64 == b - 0x8000_0000_0000_0000u64) by (bit_vector);
    assert(b & 0x8000_0000_0000_0000u64 == 0 ==> b & 0x7fff_ffff_ffff_ffffu64 == b) by (bit_vector);
    assert(a & 0x8000_0000_0000_0000u64 != 0 ==> !a == 0x7fff_ffff_ffff_ffffu64 - (a & 0x7fff_ffff_ffff_ffffu64)) by (bit_vector);
    assert(b & 0x8000_0000_0000_0000u64 != 0 ==> !b == 0x7fff_ffff_ffff_ffffu64 - (b & 0x7fff_ffff_ffff_ffffu64)) by (bit_vector);
    assert(a & 0x8000_0000_0000_0000u64 == 0 ==> a | 0x8000_0000_0000_0000u64 == a + 0x8000_0000_0000_0000u64) by (bit_vector);
    assert(b & 0x8000_0000_0000_0000u64 == 0 ==> b | 0x8000_0000_0000_0000u64 == b + 0x8000_0000_0000_0000u64) by (bit_vector);
    assert(a & 0x7fff_ffff_ffff_ffffu64 <= 0x7fff_ffff_ffff_ffffu64) by (bit_vector);
    assert(b & 0x7fff_ffff_ffff_ffffu64 <= 0x7fff_ffff_ffff_ffffu64) by (bit_vector);
}


/// The biased exponent field of a pattern (bits 52 to 62).
pub open spec fn exponent_field(b: u64) -> nat {
    ((b & 0x7ff0_0000_0000_0000u64) >> 52u64) as nat
}

/// The fraction field of a pattern (bits 0 to 51).
pub open spec fn fraction_field(b: u64) -> nat {
    (b & 0x000f_ffff_ffff_ffffu64) as nat
}

/// The absolute value a finite pattern encodes, as a whole number of the smallest subnormal
/// step 2^-1074: a subnormal's fraction, or a normal number's significand (the fraction with
/// its hidden leading bit 2^52) scaled by 2^(exponent - 1).
pub open spec fn magnitude_units(b: u64) -> nat {
    let e = exponent_field(b);
    let f = fraction_field(b);
    if e == 0 {
        f
    } else {
        (0x10_0000_0000_0000nat + f) * vstd::arithmetic::power2::pow2((e - 1) as nat)
    }
}

/// The value a finite pattern encodes, in units of 2^-1074: its magnitude with its sign.
pub open spec fn value_units(b: u64) -> int {
    if b & sign_bit() != 0 {
        -(magnitude_units(b) as int)
    } else {
        magnitude_units(b) as int
    }
}

/// A larger magnitude pattern encodes a larger absolute value.
proof fn lemma_units_strictly_increase(a: u64, b: u64)
    requires
        magnitude(a) < magnitude(b),
    ensures
        magnitude_units(a) < magnitude_units(b),
{
    let ea64 = (a & 0x7ff0_0000_0000_0000u64) >> 52u64;
    let eb64 = (b & 0x7ff0_0000_0000_0000u64) >> 52u64;
    let fa64 = a & 0x000f_ffff_ffff_ffffu64;
    let fb64 = b & 0x000f_ffff_ffff_ffffu64;
    assert(a & 0x7fff_ffff_ffff_ffffu64 == ea64 * 0x10_0000_0000_0000u64 + fa64 && ea64 <= 0x7ff
        && fa64 < 0x10_0000_0000_0000u64) by (bit_vector)
        requires
            ea64 == (a & 0x7ff0_0000_0000_0000u64) >> 52u64,
            fa64 == a & 0x000f_ffff_ffff_ffffu64,
    ;
    assert(b & 0x7fff_ffff_ffff_ffffu64 == eb64 * 0x10_0000_0000_0000u64 + fb64 && eb64 <= 0x7ff
        && fb64 < 0x10_0000_0000_0000u64) by (bit_vector)
        requires
            eb64 == (b & 0x7ff0_0000_0000_0000u64) >> 52u64,
            fb64 == b & 0x000f_ffff_ffff_ffffu64,
    ;
    let ea = ea64 as int;
    let eb = eb64 as int;
    let fa = fa64 as int;
    let fb = fb64 as int;
    let t: int = 0x10_0000_0000_0000;
    assert(ea * t + fa < eb * t + fb);
    assert(ea < eb || (ea == eb && fa < fb)) by (nonlinear_arith)
        requires
            ea * t + fa < eb * t + fb,
            0 <= fa < t,
            0 <= fb < t,
            t > 0,
    ;
    let ua = magnitude_units(a) as int;
    let ub = magnitude_units(b) as int;
    if ea == eb {
        if ea > 0 {
            let p = vstd::arithmetic::power2::pow2((ea - 1) as nat) as int;
            vstd::arithmetic::power2::lemma_pow2_pos((ea - 1) as nat);
            assert((t + fa) * p < (t + fb) * p) by (nonlinear_arith)
                requires
                    fa < fb,
                    p > 0,
            ;
        }
    } else {
        // eb >= 1, and every value with exponent field below eb lies under 2^52 * 2^(eb - 1)
        let pb = vstd::arithmetic::power2::pow2((eb - 1) as nat) as int;
        vstd::arithmetic::power2::lemma_pow2_pos((eb - 1) as nat);
        assert(ub >= t * pb) by (nonlinear_arith)
            requires
                ub == (t + fb) * pb,
                fb >= 0,
                pb > 0,
        ;
        if ea == 0 {
            assert(t * pb >= t) by (nonlinear_arith)
                requires
                    pb >= 1,
                    t > 0,
            ;
        } else {
            let pa = vstd::arithmetic::power2::pow2((ea - 1) as nat) as int;
            vstd::arithmetic::power2::lemma_pow2_pos((ea - 1) as nat);
            vstd::arithmetic::power2::lemma_pow2_unfold(ea as nat);
            let pe = vstd::arithmetic::power2::pow2(ea as nat) as int;
            if ea < eb - 1 {
                vstd::arithmetic::power2::lemma_pow2_strictly_increases(ea as nat, (eb - 1) as nat);
            }
            assert(pe <= pb);
            assert(ua < t * pe) by (nonlinear_arith)
                requires
                    ua == (t + fa) * pa,
                    fa < t,
                    pa > 0,
                    pe == 2 * pa,
            ;
            assert(t * pe <= t * pb) by (nonlinear_arith)
                requires
                    pe <= pb,
                    t > 0,
            ;
        }
    }
}

/// Patterns with the same magnitude bits encode the same absolute value.
proof fn lemma_units_of_magnitude(a: u64, b: u64)
    requires
        magnitude(a) == magnitude(b),
    ensures
        magnitude_units(a) == magnitude_units(b),
{
    assert((a & 0x7ff0_0000_0000_0000u64) == (b & 0x7ff0_0000_0000_0000u64) && (a
        & 0x000f_ffff_ffff_ffffu64) == (b & 0x000f_ffff_ffff_ffffu64)) by (bit_vector)
        requires
            a & 0x7fff_ffff_ffff_ffffu64 == b & 0x7fff_ffff_ffff_ffffu64,
    ;
}

/// The magnitude bits order exactly as the absolute values they encode.
pub proof fn lemma_magnitude_orders_units(a: u64, b: u64)
    ensures
        (magnitude(a) < magnitude(b)) <==> (magnitude_units(a) < magnitude_units(b)),
        (magnitude(a) == magnitude(b)) <==> (magnitude_units(a) == magnitude_units(b)),
{
    if magnitude(a) < magnitude(b) {
        lemma_units_strictly_increase(a, b);
    } else if magnitude(b) < magnitude(a) {
        lemma_units_strictly_increase(b, a);
    } else {
        lemma_units_of_magnitude(a, b);
    }
}

/// Only a zero magnitude encodes the absolute value zero.
pub proof fn lemma_zero_units(a: u64)
    ensures
        (magnitude_units(a) == 0) <==> (magnitude(a) == 0),
{
    assert(0u64 & 0x7fff_ffff_ffff_ffffu64 == 0) by (bit_vector);
    assert(0u64 & 0x7ff0_0000_0000_0000u64 == 0 && 0u64 & 0x000f_ffff_ffff_ffffu64 == 0)
        by (bit_vector);
    assert(0u64 >> 52u64 == 0) by (bit_vector);
    assert(magnitude_units(0) == 0);
    lemma_magnitude_orders_units(a, 0);
}

/// The pattern of `+0.0` encodes zero.
pub proof fn lemma_positive_zero()
    ensures
        magnitude_units(0) == 0,
        value_units(0) == 0,
{
    assert(0u64 & 0x7fff_ffff_ffff_ffffu64 == 0 && 0u64 & 0x8000_0000_0000_0000u64 == 0)
        by (bit_vector);
    lemma_zero_units(0);
}

/// The order key orders patterns exactly as the values they encode: a smaller value has a
/// smaller key, and two patterns share a key exactly when they encode the same value (`-0` and
/// `+0` included).
pub proof fn lemma_order_key_orders_encoded_values(a: u64, b: u64)
    ensures
        (order_key_spec(a) < order_key_spec(b)) <==> (value_units(a) < value_units(b)),
        (order_key_spec(a) == order_key_spec(b)) <==> (value_units(a) == value_units(b)),
{
    lemma_order_key_orders_values(a, b);
    lemma_magnitude_orders_units(a, b);
    lemma_zero_units(a);
    lemma_zero_units(b);
}

/// `a >= b` on the values the patterns stand for: false whenever either is a NaN.
pub open spec fn at_least(a: u64, b: u64) -> bool {
    !nan_bits(a) && !nan_bits(b) && order_key_spec(a) >= order_key_spec(b)
}

/// `a <= b` on the values the patterns stand for: false whenever either is a NaN.
pub open spec fn at_most(a: u64, b: u64) -> bool {
    !nan_bits(a) && !nan_bits(b) && order_key_spec(a) <= order_key_spec(b)
}

/// Compares two values, given by their patterns, as `a >= b` does.
pub fn value_at_least(a: u64, b: u64) -> (r: bool)
    ensures
        r == at_least(a, b),
{
    !is_nan_bits(a) && !is_nan_bits(b) && order_key(a) >= order_key(b)
}

/// Compares two values, given by their patterns, as `a <= b` does.
pub fn value_at_most(a: u64, b: u64) -> (r: bool)
    ensures
        r == at_most(a, b),
{
    !is_nan_bits(a) && !is_nan_bits(b) && order_key(a) <= order_key(b)
}

} // verus!
