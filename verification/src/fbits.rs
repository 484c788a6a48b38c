//! IEEE-754 binary32 values as raw bit patterns.
//!
//! A `u32` in this crate carries the bit pattern of a binary32 value.  The
//! operations that depend only on the bits - classification, comparison,
//! absolute value, negation, minimum and maximum - are implemented and
//! specified here directly.  For every pair of non-NaN values the standard
//! float comparison coincides with the unsigned order of a sign-magnitude
//! key, with the two zeroes mapped to the same key.

use vstd::prelude::*;

verus! {

// Bit patterns of binary32 constants; the commented value is the float.
pub const B_ZERO: u32 = 0x0000_0000; // 0.0
pub const B_NEG_ZERO: u32 = 0x8000_0000; // -0.0
pub const B_ONE: u32 = 0x3F80_0000; // 1.0
pub const B_TWO: u32 = 0x4000_0000; // 2.0
pub const B_FOUR: u32 = 0x4080_0000; // 4.0
pub const B_HALF: u32 = 0x3F00_0000; // 0.5
pub const B_QUARTER: u32 = 0x3E80_0000; // 0.25
pub const B_NEG_ONE: u32 = 0xBF80_0000; // -1.0
pub const B_NEG_TWO: u32 = 0xC000_0000; // -2.0
pub const B_TWELVE: u32 = 0x4140_0000; // 12.0
pub const B_SIXTY_NINE: u32 = 0x428A_0000; // 69.0
pub const B_A440: u32 = 0x43DC_0000; // 440.0
pub const B_0_04: u32 = 0x3D23_D70A; // 0.04
pub const B_0_08: u32 = 0x3DA3_D70A; // 0.08
pub const B_0_03: u32 = 0x3CF5_C28F; // 0.03
pub const B_0_45: u32 = 0x3EE6_6666; // 0.45
pub const B_0_2: u32 = 0x3E4C_CCCD; // 0.2
pub const B_1E_3: u32 = 0x3A83_126F; // 1.0e-3
pub const B_1E_6: u32 = 0x3586_37BD; // 1.0e-6
pub const B_0_75: u32 = 0x3F40_0000; // 0.75
pub const B_0_49: u32 = 0x3EFA_E148; // 0.49
pub const B_0_1: u32 = 0x3DCC_CCCD; // 0.1
pub const B_0_98: u32 = 0x3F7A_E148; // 0.98
pub const B_0_9: u32 = 0x3F66_6666; // 0.9
pub const B_900: u32 = 0x4461_0000; // 900.0
pub const B_80: u32 = 0x42A0_0000; // 80.0
pub const B_PI: u32 = 0x4049_0FDB; // pi, rounded to binary32
pub const B_NEG_PI: u32 = 0xC049_0FDB; // -pi
pub const B_PI_HALF: u32 = 0x3FC9_0FDB; // pi / 2
pub const B_NEG_PI_HALF: u32 = 0xBFC9_0FDB; // -pi / 2
pub const B_TWO_PI: u32 = 0x40C9_0FDB; // 2 * pi
pub const B_NEG_TWO_PI: u32 = 0xC0C9_0FDB; // -2 * pi
pub const B_TWO_PI_5_5: u32 = 0x420A_3AE7; // 2 * pi * 5.5 (vibrato pulsation)
pub const B_LOG2_E: u32 = 0x3FB8_AA3B; // log2(e)
pub const B_128: u32 = 0x4300_0000; // 128.0
pub const B_126: u32 = 0x42FC_0000; // 126.0
pub const B_NEG_126: u32 = 0xC2FC_0000; // -126.0
pub const B_NINE: u32 = 0x4110_0000; // 9.0
pub const B_NEG_NINE: u32 = 0xC110_0000; // -9.0
pub const B_1E_4: u32 = 0x38D1_B717; // 1.0e-4
pub const B_INF: u32 = 0x7F80_0000; // +infinity
pub const B_NAN: u32 = 0x7FC0_0000; // quiet NaN

/// Exponent field of a binary32 bit pattern.
pub open spec fn exp_field(x: u32) -> u32 {
    (x >> 23) & 0xFF
}

/// Fraction field of a binary32 bit pattern.
pub open spec fn frac_field(x: u32) -> u32 {
    x & 0x007F_FFFF
}

/// The bit pattern denotes a NaN.
pub open spec fn is_nan(x: u32) -> bool {
    exp_field(x) == 0xFF && frac_field(x) != 0
}

/// The bit pattern denotes a finite value (neither NaN nor an infinity).
pub open spec fn is_finite(x: u32) -> bool {
    exp_field(x) != 0xFF
}

/// Sign-magnitude order key: monotone in the float order for every non-NaN
/// value, with `-0.0` and `+0.0` mapped to the same key.
pub open spec fn order_key(x: u32) -> u32 {
    if x == B_NEG_ZERO {
        0x8000_0000u32
    } else if x < 0x8000_0000 {
        (x + 0x8000_0000) as u32
    } else {
        !x
    }
}

/// The float comparison `a < b` (false whenever either side is NaN).
pub open spec fn flt(a: u32, b: u32) -> bool {
    !is_nan(a) && !is_nan(b) && order_key(a) < order_key(b)
}

/// The float comparison `a <= b` (false whenever either side is NaN).
pub open spec fn fle(a: u32, b: u32) -> bool {
    !is_nan(a) && !is_nan(b) && order_key(a) <= order_key(b)
}

/// Absolute value: the sign bit cleared.
pub open spec fn fabs(x: u32) -> u32 {
    x & 0x7FFF_FFFF
}

/// Negation: the sign bit flipped.
pub open spec fn fneg(x: u32) -> u32 {
    x ^ 0x8000_0000
}

/// The larger of two values, NaN operands ignored, as `f32::max`: if one
/// operand is NaN the other is returned; equal values yield the first.
pub open spec fn fmax(a: u32, b: u32) -> u32 {
    if is_nan(a) {
        b
    } else if is_nan(b) {
        a
    } else if flt(a, b) {
        b
    } else {
        a
    }
}

/// The smaller of two values, NaN operands ignored, as `f32::min`.
pub open spec fn fmin(a: u32, b: u32) -> u32 {
    if is_nan(a) {
        b
    } else if is_nan(b) {
        a
    } else if flt(b, a) {
        b
    } else {
        a
    }
}

/// Arithmetic characterizations of the bit-level operations, so that
/// classification and order facts about concrete bit patterns follow by
/// plain integer reasoning.
pub proof fn lemma_bits_arith(x: u32)
    ensures
        fabs(x) == (if x >= 0x8000_0000 {
            (x - 0x8000_0000) as u32
        } else {
            x
        }),
        !x == (0xFFFF_FFFFu32 - x) as u32,
        is_nan(x) <==> fabs(x) > 0x7F80_0000,
        is_finite(x) <==> fabs(x) < 0x7F80_0000,
{
    assert((x & 0x7FFF_FFFF) == (if x >= 0x8000_0000 {
        (x - 0x8000_0000) as u32
    } else {
        x
    })) by (bit_vector);
    assert(!x == (0xFFFF_FFFFu32 - x) as u32) by (bit_vector);
    assert((((x >> 23) & 0xFF) == 0xFF && (x & 0x007F_FFFF) != 0) <==> ((x & 0x7FFF_FFFF)
        > 0x7F80_0000)) by (bit_vector);
    assert((((x >> 23) & 0xFF) != 0xFF) <==> ((x & 0x7FFF_FFFF) < 0x7F80_0000)) by (bit_vector);
}

/// Classification of the constants that validation clamps against.
pub proof fn lemma_const_classes()
    ensures
        is_finite(B_ZERO) && !is_nan(B_ZERO),
        is_finite(B_ONE) && !is_nan(B_ONE),
        is_finite(B_TWO) && !is_nan(B_TWO),
        is_finite(B_FOUR) && !is_nan(B_FOUR),
        is_finite(B_HALF) && !is_nan(B_HALF),
{
    lemma_bits_arith(B_ZERO);
    lemma_bits_arith(B_ONE);
    lemma_bits_arith(B_TWO);
    lemma_bits_arith(B_FOUR);
    lemma_bits_arith(B_HALF);
}

pub(crate) fn f_is_nan(x: u32) -> (r: bool)
    ensures
        r == is_nan(x),
{
    (x >> 23) & 0xFF == 0xFF && x & 0x007F_FFFF != 0
}

pub(crate) fn f_is_finite(x: u32) -> (r: bool)
    ensures
        r == is_finite(x),
{
    (x >> 23) & 0xFF != 0xFF
}

fn f_key(x: u32) -> (r: u32)
    ensures
        r == order_key(x),
{
    if x == B_NEG_ZERO {
        0x8000_0000
    } else if x < 0x8000_0000 {
        x + 0x8000_0000
    } else {
        !x
    }
}

pub(crate) fn f_lt(a: u32, b: u32) -> (r: bool)
    ensures
        r == flt(a, b),
{
    !f_is_nan(a) && !f_is_nan(b) && f_key(a) < f_key(b)
}

pub(crate) fn f_le(a: u32, b: u32) -> (r: bool)
    ensures
        r == fle(a, b),
{
    !f_is_nan(a) && !f_is_nan(b) && f_key(a) <= f_key(b)
}

pub(crate) fn f_abs(x: u32) -> (r: u32)
    ensures
        r == fabs(x),
{
    x & 0x7FFF_FFFF
}

pub(crate) fn f_neg(x: u32) -> (r: u32)
    ensures
        r == fneg(x),
{
    x ^ 0x8000_0000
}

pub(crate) fn f_max(a: u32, b: u32) -> (r: u32)
    ensures
        r == fmax(a, b),
{
    if f_is_nan(a) {
        b
    } else if f_is_nan(b) {
        a
    } else if f_lt(a, b) {
        b
    } else {
        a
    }
}

pub(crate) fn f_min(a: u32, b: u32) -> (r: u32)
    ensures
        r == fmin(a, b),
{
    if f_is_nan(a) {
        b
    } else if f_is_nan(b) {
        a
    } else if f_lt(b, a) {
        b
    } else {
        a
    }
}

} // verus!
