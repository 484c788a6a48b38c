//! Monophonic pitch-correction / pitch-shaping core.
//!
//! The engine reshapes a mono stream of audio samples in place so that each
//! span of a note timeline is pitched and timbred toward its target: a
//! delay-line pitch shifter with two crossfaded interpolated taps, a note
//! scheduler that derives a continuously varying pitch offset (vibrato,
//! drift, attack/release ramps) from discrete note parameters, and a
//! harmonic/formant shaping stage built from a bank of bandpass filters plus
//! a one-pole spectral-tilt stage.
//!
//! Samples and all tunable parameters are IEEE-754 binary32 values carried
//! as their raw bit patterns (`u32`).  Ordering, classification and sign
//! operations on such values are defined directly on the bits; the remaining
//! arithmetic is performed by `rustc_apfloat`, a software implementation of
//! IEEE-754 binary32, behind thin trusted wrappers.  Transcendental helpers
//! (exponential, sine, square root, hyperbolic tangent) are implemented and
//! verified here on top of those primitives.

pub mod engine;
pub mod fbits;
pub mod fmath;
pub mod fx;
pub mod notes;
pub mod shifter;
pub mod timbre;



