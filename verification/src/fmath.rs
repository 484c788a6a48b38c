//! Transcendental helpers on binary32 bit patterns.
//!
//! Built entirely from the primitive arithmetic in `fx` and the bit-level
//! operations in `fbits`, so each function is verified against a spec that
//! pins its result exactly (as a composition of the named primitives).
//! Polynomial coefficients are minimax fits; `exp2` is exact on integer
//! arguments, `sin` is odd and exact at zero.

use vstd::prelude::*;
use crate::fbits::{
    fabs, fle, flt, is_finite, is_nan, f_abs, f_is_finite, f_is_nan, f_le, f_lt, B_128, B_126,
    B_1E_4, B_HALF, B_INF, B_LOG2_E, B_NAN, B_NEG_126, B_NEG_NINE, B_NEG_ONE, B_NEG_PI,
    B_NEG_PI_HALF, B_NEG_ZERO, B_NINE, B_ONE, B_PI, B_PI_HALF, B_TWO, B_TWO_PI, B_ZERO,
};
use crate::fx::{
    f32_add, f32_div, f32_floor, f32_fmod, f32_mul, f32_sub, f32_to_u64, fx_add, fx_div, fx_floor,
    fx_fmod, fx_mul, fx_sub, fx_to_u64,
};

verus! {

// Coefficients of q in 2^f = 1 + f * q(f) on [0, 1], as bit patterns.
pub const EXP2_C0: u32 = 0x3F31_7226;
pub const EXP2_C1: u32 = 0x3E75_F7AB;
pub const EXP2_C2: u32 = 0x3D64_04EF;
pub const EXP2_C3: u32 = 0x3C16_94B0;
pub const EXP2_C4: u32 = 0x3AEA_7FD6;

// Coefficients of p in sin(x) = x * p(x^2) on [-pi/2, pi/2]; p(0) = 1.
pub const SIN_C1: u32 = 0xBE2A_AAA6;
pub const SIN_C2: u32 = 0x3C08_878B;
pub const SIN_C3: u32 = 0xB94F_BFAB;
pub const SIN_C4: u32 = 0x362F_5844;

/// Initial estimate for the inverse of the square-root bit pattern.
pub const SQRT_SEED: u32 = 0x1FBD_1DF5;

/// Base-2 exponential.  NaN propagates; arguments at or above 128 give
/// +infinity, at or below -126 give +0 (results in the subnormal range are
/// flushed to zero); otherwise the fractional part is fed to the polynomial
/// and the integer part becomes the exponent of a power-of-two factor, so
/// integer arguments give exact powers of two.
pub open spec fn spec_exp2(x: u32) -> u32 {
    if is_nan(x) {
        x
    } else if fle(B_128, x) {
        B_INF
    } else if fle(x, B_NEG_126) {
        B_ZERO
    } else {
        let nf = f32_floor(x);
        let off = f32_to_u64(f32_add(nf, B_126));
        let n_off = if off > 253 { 253u64 } else { off };
        let f = f32_sub(x, nf);
        let p0 = f32_add(f32_mul(EXP2_C4, f), EXP2_C3);
        let p1 = f32_add(f32_mul(p0, f), EXP2_C2);
        let p2 = f32_add(f32_mul(p1, f), EXP2_C1);
        let p3 = f32_add(f32_mul(p2, f), EXP2_C0);
        let q = f32_add(B_ONE, f32_mul(f, p3));
        let scale = (((n_off + 1) as u32) << 23) as u32;
        f32_mul(q, scale)
    }
}

pub(crate) fn fx_exp2(x: u32) -> (r: u32)
    ensures
        r == spec_exp2(x),
{
    if f_is_nan(x) {
        return x;
    }
    if f_le(B_128, x) {
        return B_INF;
    }
    if f_le(x, B_NEG_126) {
        return B_ZERO;
    }
    let nf = fx_floor(x);
    let off = fx_to_u64(fx_add(nf, B_126));
    let n_off: u64 = if off > 253 {
        253
    } else {
        off
    };
    let f = fx_sub(x, nf);
    let mut p = fx_add(fx_mul(EXP2_C4, f), EXP2_C3);
    p = fx_add(fx_mul(p, f), EXP2_C2);
    p = fx_add(fx_mul(p, f), EXP2_C1);
    p = fx_add(fx_mul(p, f), EXP2_C0);
    let q = fx_add(B_ONE, fx_mul(f, p));
    let scale: u32 = ((n_off + 1) as u32) << 23;
    fx_mul(q, scale)
}

/// Natural exponential, as `2^(x * log2 e)`.
pub open spec fn spec_exp(x: u32) -> u32 {
    spec_exp2(f32_mul(x, B_LOG2_E))
}

pub(crate) fn fx_exp(x: u32) -> (r: u32)
    ensures
        r == spec_exp(x),
{
    fx_exp2(fx_mul(x, B_LOG2_E))
}

/// Square root.  NaN propagates, the two zeroes and +infinity map to
/// themselves, negative values give NaN; positive finite values take a
/// bit-level seed refined by three Newton steps.
pub open spec fn spec_sqrt(x: u32) -> u32 {
    if is_nan(x) {
        x
    } else if x == B_ZERO || x == B_NEG_ZERO {
        x
    } else if x & 0x8000_0000 != 0 {
        B_NAN
    } else if x == B_INF {
        B_INF
    } else {
        let g0 = ((x / 2 + SQRT_SEED) as u32);
        let g1 = f32_mul(B_HALF, f32_add(g0, f32_div(x, g0)));
        let g2 = f32_mul(B_HALF, f32_add(g1, f32_div(x, g1)));
        f32_mul(B_HALF, f32_add(g2, f32_div(x, g2)))
    }
}

pub(crate) fn fx_sqrt(x: u32) -> (r: u32)
    ensures
        r == spec_sqrt(x),
{
    if f_is_nan(x) {
        return x;
    }
    if x == B_ZERO || x == B_NEG_ZERO {
        return x;
    }
    if x & 0x8000_0000 != 0 {
        return B_NAN;
    }
    if x == B_INF {
        return B_INF;
    }
    let g0 = x / 2 + SQRT_SEED;
    let g1 = fx_mul(B_HALF, fx_add(g0, fx_div(x, g0)));
    let g2 = fx_mul(B_HALF, fx_add(g1, fx_div(x, g1)));
    fx_mul(B_HALF, fx_add(g2, fx_div(x, g2)))
}

/// Sine.  Non-finite arguments give NaN; the argument is reduced modulo
/// 2*pi into [-pi, pi], folded into [-pi/2, pi/2], and fed to an odd
/// polynomial, so the result at a signed zero is that zero.
pub open spec fn spec_sin(x: u32) -> u32 {
    if !is_finite(x) {
        B_NAN
    } else {
        let r0 = f32_fmod(x, B_TWO_PI);
        let r1 = if flt(B_PI, r0) {
            f32_sub(r0, B_TWO_PI)
        } else if flt(r0, B_NEG_PI) {
            f32_add(r0, B_TWO_PI)
        } else {
            r0
        };
        let r2 = if flt(B_PI_HALF, r1) {
            f32_sub(B_PI, r1)
        } else if flt(r1, B_NEG_PI_HALF) {
            f32_sub(B_NEG_PI, r1)
        } else {
            r1
        };
        let t = f32_mul(r2, r2);
        let p0 = f32_add(f32_mul(SIN_C4, t), SIN_C3);
        let p1 = f32_add(f32_mul(p0, t), SIN_C2);
        let p2 = f32_add(f32_mul(p1, t), SIN_C1);
        let p3 = f32_add(f32_mul(p2, t), B_ONE);
        f32_mul(p3, r2)
    }
}

pub(crate) fn fx_sin(x: u32) -> (r: u32)
    ensures
        r == spec_sin(x),
{
    if !f_is_finite(x) {
        return B_NAN;
    }
    let r0 = fx_fmod(x, B_TWO_PI);
    let r1 = if f_lt(B_PI, r0) {
        fx_sub(r0, B_TWO_PI)
    } else if f_lt(r0, B_NEG_PI) {
        fx_add(r0, B_TWO_PI)
    } else {
        r0
    };
    let r2 = if f_lt(B_PI_HALF, r1) {
        fx_sub(B_PI, r1)
    } else if f_lt(r1, B_NEG_PI_HALF) {
        fx_sub(B_NEG_PI, r1)
    } else {
        r1
    };
    let t = fx_mul(r2, r2);
    let mut p = fx_add(fx_mul(SIN_C4, t), SIN_C3);
    p = fx_add(fx_mul(p, t), SIN_C2);
    p = fx_add(fx_mul(p, t), SIN_C1);
    p = fx_add(fx_mul(p, t), B_ONE);
    fx_mul(p, r2)
}

/// Cosine, as the sine of `pi/2 - x`.
pub open spec fn spec_cos(x: u32) -> u32 {
    spec_sin(f32_sub(B_PI_HALF, x))
}

pub(crate) fn fx_cos(x: u32) -> (r: u32)
    ensures
        r == spec_cos(x),
{
    fx_sin(fx_sub(B_PI_HALF, x))
}

/// Hyperbolic tangent.  NaN propagates; tiny arguments return themselves
/// (exact there); arguments of magnitude 9 or more saturate at the signed
/// unit; otherwise computed from the base-2 exponential of `2x`.
pub open spec fn spec_tanh(x: u32) -> u32 {
    if is_nan(x) {
        x
    } else if flt(fabs(x), B_1E_4) {
        x
    } else if fle(B_NINE, x) {
        B_ONE
    } else if fle(x, B_NEG_NINE) {
        B_NEG_ONE
    } else {
        let e2 = spec_exp2(f32_mul(f32_mul(x, B_TWO), B_LOG2_E));
        f32_div(f32_sub(e2, B_ONE), f32_add(e2, B_ONE))
    }
}

pub(crate) fn fx_tanh(x: u32) -> (r: u32)
    ensures
        r == spec_tanh(x),
{
    if f_is_nan(x) {
        return x;
    }
    if f_lt(f_abs(x), B_1E_4) {
        return x;
    }
    if f_le(B_NINE, x) {
        return B_ONE;
    }
    if f_le(x, B_NEG_NINE) {
        return B_NEG_ONE;
    }
    let e2 = fx_exp2(fx_mul(fx_mul(x, B_TWO), B_LOG2_E));
    fx_div(fx_sub(e2, B_ONE), fx_add(e2, B_ONE))
}

} // verus!
