//! Trusted wrappers around `rustc_apfloat`'s binary32 arithmetic.
//!
//! Every operation below takes and returns raw binary32 bit patterns.  Each
//! result is a pure function of the operand bits, so it is given a name by
//! an uninterpreted spec function; the wrapper's contract states that the
//! call returns exactly the named value.

use vstd::prelude::*;
use rustc_apfloat::Float;
use rustc_apfloat::Round;
use rustc_apfloat::ieee::Single;

verus! {

/// The IEEE-754 binary32 sum of the values with the given bit patterns.
pub uninterp spec fn f32_add(a: u32, b: u32) -> u32;

/// The IEEE-754 binary32 difference of the values with the given bit patterns.
pub uninterp spec fn f32_sub(a: u32, b: u32) -> u32;

/// The IEEE-754 binary32 product of the values with the given bit patterns.
pub uninterp spec fn f32_mul(a: u32, b: u32) -> u32;

/// The IEEE-754 binary32 quotient of the values with the given bit patterns.
pub uninterp spec fn f32_div(a: u32, b: u32) -> u32;

/// The IEEE-754 binary32 remainder (C `fmod`) of the given bit patterns.
pub uninterp spec fn f32_fmod(a: u32, b: u32) -> u32;

/// The value with bit pattern `a` rounded toward negative infinity.
pub uninterp spec fn f32_floor(a: u32) -> u32;

/// The value with bit pattern `a` rounded toward positive infinity.
pub uninterp spec fn f32_ceil(a: u32) -> u32;

/// The value with bit pattern `a` rounded to the nearest integer, ties away
/// from zero.
pub uninterp spec fn f32_round(a: u32) -> u32;

/// The value with bit pattern `a` converted to `u64` as by an `as` cast:
/// truncated toward zero, NaN mapped to 0, saturating at the type bounds.
pub uninterp spec fn f32_to_u64(a: u32) -> u64;

/// The binary32 bit pattern nearest to the integer `x` (ties to even).
pub uninterp spec fn f32_from_u64(x: u64) -> u32;

/// Relies on `rustc_apfloat::ieee::Single::add_r` with round-to-nearest,
/// ties to even: IEEE-754 binary32 addition on bit patterns.
#[verifier::external_body]
pub(crate) fn fx_add(a: u32, b: u32) -> (r: u32)
    ensures
        r == f32_add(a, b),
{
    let x = Single::from_bits(a as u128);
    let y = Single::from_bits(b as u128);
    x.add_r(y, Round::NearestTiesToEven).value.to_bits() as u32
}

/// Relies on `rustc_apfloat::ieee::Single::sub_r` with round-to-nearest,
/// ties to even: IEEE-754 binary32 subtraction on bit patterns.  Its
/// source states that an exact cancellation yields positive zero under
/// this rounding, so the difference of a finite value from itself is
/// exactly `+0.0`.
#[verifier::external_body]
pub(crate) fn fx_sub(a: u32, b: u32) -> (r: u32)
    ensures
        r == f32_sub(a, b),
        a == b && crate::fbits::is_finite(a) ==> r == crate::fbits::B_ZERO,
{
    let x = Single::from_bits(a as u128);
    let y = Single::from_bits(b as u128);
    x.sub_r(y, Round::NearestTiesToEven).value.to_bits() as u32
}

/// Relies on `rustc_apfloat::ieee::Single::mul_r` with round-to-nearest,
/// ties to even: IEEE-754 binary32 multiplication on bit patterns.
#[verifier::external_body]
pub(crate) fn fx_mul(a: u32, b: u32) -> (r: u32)
    ensures
        r == f32_mul(a, b),
{
    let x = Single::from_bits(a as u128);
    let y = Single::from_bits(b as u128);
    x.mul_r(y, Round::NearestTiesToEven).value.to_bits() as u32
}

/// Relies on `rustc_apfloat::ieee::Single::div_r` with round-to-nearest,
/// ties to even: IEEE-754 binary32 division on bit patterns.  Its source
/// returns a zero dividend unchanged for a non-zero divisor, so positive
/// zero over a positive finite value is exactly `+0.0`.
#[verifier::external_body]
pub(crate) fn fx_div(a: u32, b: u32) -> (r: u32)
    ensures
        r == f32_div(a, b),
        a == crate::fbits::B_ZERO && crate::fbits::is_finite(b) && crate::fbits::flt(
            crate::fbits::B_ZERO,
            b,
        ) ==> r == crate::fbits::B_ZERO,
{
    let x = Single::from_bits(a as u128);
    let y = Single::from_bits(b as u128);
    x.div_r(y, Round::NearestTiesToEven).value.to_bits() as u32
}

/// Relies on `rustc_apfloat::ieee::Single::c_fmod`: the C `fmod` remainder
/// on bit patterns, the operation behind `%` on floats.
#[verifier::external_body]
pub(crate) fn fx_fmod(a: u32, b: u32) -> (r: u32)
    ensures
        r == f32_fmod(a, b),
{
    let x = Single::from_bits(a as u128);
    let y = Single::from_bits(b as u128);
    x.c_fmod(y).value.to_bits() as u32
}

/// Relies on `rustc_apfloat::ieee::Single::round_to_integral` with rounding
/// toward negative infinity: the `floor` of the value with bit pattern `a`.
#[verifier::external_body]
pub(crate) fn fx_floor(a: u32) -> (r: u32)
    ensures
        r == f32_floor(a),
{
    let x = Single::from_bits(a as u128);
    x.round_to_integral(Round::TowardNegative).value.to_bits() as u32
}

/// Relies on `rustc_apfloat::ieee::Single::round_to_integral` with rounding
/// toward positive infinity: the `ceil` of the value with bit pattern `a`.
#[verifier::external_body]
pub(crate) fn fx_ceil(a: u32) -> (r: u32)
    ensures
        r == f32_ceil(a),
{
    let x = Single::from_bits(a as u128);
    x.round_to_integral(Round::TowardPositive).value.to_bits() as u32
}

/// Relies on `rustc_apfloat::ieee::Single::round_to_integral` with rounding
/// to the nearest integer, ties away from zero: `f32::round`.
#[verifier::external_body]
pub(crate) fn fx_round(a: u32) -> (r: u32)
    ensures
        r == f32_round(a),
{
    let x = Single::from_bits(a as u128);
    x.round_to_integral(Round::NearestTiesToAway).value.to_bits() as u32
}

/// Relies on `rustc_apfloat::ieee::Single::to_u128_r` truncating toward
/// zero: its documentation states that NaN yields 0 and out-of-range values
/// saturate, which is the behaviour of an `as u64` cast.
#[verifier::external_body]
pub(crate) fn fx_to_u64(a: u32) -> (r: u64)
    ensures
        r == f32_to_u64(a),
{
    let x = Single::from_bits(a as u128);
    let mut exact = false;
    x.to_u128_r(64, Round::TowardZero, &mut exact).value as u64
}

/// Relies on `rustc_apfloat::ieee::Single::from_u128_r` with round-to-
/// nearest, ties to even: the conversion behind `as f32` on an integer.
#[verifier::external_body]
pub(crate) fn fx_from_u64(x: u64) -> (r: u32)
    ensures
        r == f32_from_u64(x),
{
    Single::from_u128_r(x as u128, Round::NearestTiesToEven).value.to_bits() as u32
}

} // verus!
