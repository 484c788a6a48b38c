//! Delay-line pitch shifter.
//!
//! A circular buffer of about 40 ms of audio, written one sample per step,
//! is read back through two interpolated taps half a buffer apart; the taps
//! are blended with a raised-cosine crossfade so that as one tap approaches
//! the write discontinuity the other dominates.  The read cursor advances at
//! a rate `1 - ratio` per sample, so a ratio above one reads faster than the
//! buffer is written (pitch up) and below one slower (pitch down).

use vstd::prelude::*;
use crate::fbits::{
    fabs, fle, flt, fmax, fmin, is_finite, f_abs, f_is_finite, f_le, f_lt, f_max, f_min, B_0_04,
    B_1E_3, B_HALF, B_ONE, B_TWO, B_TWO_PI, B_TWELVE, B_ZERO,
};
use crate::fmath::{fx_cos, fx_exp2, spec_cos, spec_exp2};
use crate::fx::{
    f32_add, f32_div, f32_floor, f32_fmod, f32_from_u64, f32_mul, f32_round, f32_sub, f32_to_u64,
    fx_add, fx_div, fx_floor, fx_fmod, fx_from_u64, fx_mul, fx_round, fx_sub, fx_to_u64,
};

verus! {

/// Mathematical state of a shifter: sample rate, delay buffer contents,
/// write cursor and fractional read cursor (all parameter values as binary32
/// bit patterns).
#[verifier::ext_equal]
pub struct ShifterModel {
    pub sr: u32,
    pub buf: Seq<u32>,
    pub widx: int,
    pub dp: u32,
}

/// Well-formed shifter state: the buffer has the clamped 40 ms size and the
/// write cursor is inside it.
pub open spec fn shifter_wf(m: ShifterModel) -> bool {
    &&& 256 <= m.buf.len() <= 16384
    &&& 0 <= m.widx < m.buf.len()
}

/// Delay-buffer size for a sample rate: `round(rate * 0.04)` clamped into
/// `[256, 16384]`.
pub open spec fn spec_delay_len(sr: u32) -> int {
    let raw = f32_to_u64(f32_round(f32_mul(sr, B_0_04)));
    if raw < 256 {
        256
    } else if raw > 16384 {
        16384
    } else {
        raw as int
    }
}

/// Pitch ratio for a semitone offset: `2^(semitones / 12)`, defaulted to 1
/// when non-finite or non-positive, clamped into `[0.5, 2.0]`.
pub open spec fn spec_ratio(semi: u32) -> u32 {
    let r0 = spec_exp2(f32_div(semi, B_TWELVE));
    let r1 = if !is_finite(r0) || fle(r0, B_ZERO) {
        B_ONE
    } else {
        r0
    };
    fmin(fmax(r1, B_HALF), B_TWO)
}

/// Exact-bypass test: offsets below a thousandth of a semitone, or ratios
/// within a thousandth of unity, pass the signal through untouched.
pub open spec fn spec_bypass(semi: u32, ratio: u32) -> bool {
    flt(fabs(semi), B_1E_3) || flt(fabs(f32_sub(ratio, B_ONE)), B_1E_3)
}

/// Linear interpolated read of the circular buffer at fractional delay `d`
/// behind the write cursor, wrapping at the buffer end.
pub open spec fn spec_read_interp(buf: Seq<u32>, widx: int, d: u32) -> u32 {
    let len = buf.len() as int;
    if len <= 1 {
        B_ZERO
    } else {
        let lenf = f32_from_u64(len as u64);
        let pos0 = f32_fmod(f32_sub(f32_from_u64(widx as u64), d), lenf);
        let pos = if flt(pos0, B_ZERO) {
            f32_add(pos0, lenf)
        } else {
            pos0
        };
        let i0u = f32_to_u64(f32_floor(pos));
        let i0 = if i0u >= len as u64 {
            len - 1
        } else {
            i0u as int
        };
        let frac = f32_sub(pos, f32_from_u64(i0 as u64));
        let i1 = if i0 + 1 >= len {
            0
        } else {
            i0 + 1
        };
        let a = buf[i0];
        let b = buf[i1];
        f32_add(a, f32_mul(f32_sub(b, a), frac))
    }
}

/// One sample through the shifter: write the input at the write cursor,
/// read the two crossfaded taps (or pass the input through under bypass),
/// then advance both cursors with wrap-around.
pub open spec fn spec_shift_step(st: ShifterModel, x: u32, byp: bool, ratio: u32) -> (ShifterModel,
    u32) {
    let len = st.buf.len() as int;
    let lenf = f32_from_u64(len as u64);
    let buf1 = st.buf.update(st.widx, x);
    let out = if byp {
        x
    } else {
        let half = f32_mul(lenf, B_HALF);
        let d1 = st.dp;
        let d2a = f32_add(d1, half);
        let d2 = if fle(lenf, d2a) {
            f32_sub(d2a, lenf)
        } else {
            d2a
        };
        let y1 = spec_read_interp(buf1, st.widx, d1);
        let y2 = spec_read_interp(buf1, st.widx, d2);
        let fade = f32_sub(B_HALF, f32_mul(B_HALF, spec_cos(f32_div(f32_mul(B_TWO_PI, d1), lenf))));
        f32_add(f32_mul(y1, fade), f32_mul(y2, f32_sub(B_ONE, fade)))
    };
    let w1 = if st.widx + 1 >= len {
        0
    } else {
        st.widx + 1
    };
    let dp1 = f32_add(st.dp, f32_sub(B_ONE, ratio));
    let dp2 = if flt(dp1, B_ZERO) {
        f32_add(dp1, lenf)
    } else {
        dp1
    };
    let dp3 = if fle(lenf, dp2) {
        f32_sub(dp2, lenf)
    } else {
        dp2
    };
    (ShifterModel { buf: buf1, widx: w1, dp: dp3, ..st }, out)
}

/// Fold of `spec_shift_step` over a sequence of samples.
pub open spec fn spec_shift_samples(st: ShifterModel, xs: Seq<u32>, byp: bool, ratio: u32) -> (
    ShifterModel,
    Seq<u32>,
)
    decreases xs.len(),
{
    if xs.len() == 0 {
        (st, Seq::empty())
    } else {
        let r1 = spec_shift_samples(st, xs.drop_last(), byp, ratio);
        let r2 = spec_shift_step(r1.0, xs.last(), byp, ratio);
        (r2.0, r1.1.push(r2.1))
    }
}

/// A whole block: the ratio and the bypass flag are computed once from the
/// semitone offset and held fixed over the samples.
pub open spec fn spec_process_block(st: ShifterModel, xs: Seq<u32>, semi: u32) -> (ShifterModel,
    Seq<u32>) {
    if xs.len() == 0 {
        (st, xs)
    } else {
        let ratio = spec_ratio(semi);
        spec_shift_samples(st, xs, spec_bypass(semi, ratio), ratio)
    }
}

/// The per-sample fold yields one output per input and keeps the shifter
/// well formed with an unchanged buffer size and sample rate.
pub proof fn lemma_shift_samples_len(st: ShifterModel, xs: Seq<u32>, byp: bool, ratio: u32)
    requires
        shifter_wf(st),
    ensures
        spec_shift_samples(st, xs, byp, ratio).1.len() == xs.len(),
        spec_shift_samples(st, xs, byp, ratio).0.buf.len() == st.buf.len(),
        spec_shift_samples(st, xs, byp, ratio).0.sr == st.sr,
        shifter_wf(st) ==> shifter_wf(spec_shift_samples(st, xs, byp, ratio).0),
    decreases xs.len(),
{
    if xs.len() > 0 {
        lemma_shift_samples_len(st, xs.drop_last(), byp, ratio);
    }
}

/// Block processing yields one output per input and keeps the shifter well
/// formed with an unchanged buffer size and sample rate.
pub proof fn lemma_process_block_len(st: ShifterModel, xs: Seq<u32>, semi: u32)
    requires
        shifter_wf(st),
    ensures
        spec_process_block(st, xs, semi).1.len() == xs.len(),
        spec_process_block(st, xs, semi).0.buf.len() == st.buf.len(),
        spec_process_block(st, xs, semi).0.sr == st.sr,
        shifter_wf(st) ==> shifter_wf(spec_process_block(st, xs, semi).0),
{
    if xs.len() > 0 {
        let ratio = spec_ratio(semi);
        lemma_shift_samples_len(st, xs, spec_bypass(semi, ratio), ratio);
    }
}

/// Under bypass every step returns its input unchanged, whatever happens to
/// the cursors and the buffer.
pub proof fn lemma_bypass_identity(st: ShifterModel, xs: Seq<u32>, ratio: u32)
    ensures
        spec_shift_samples(st, xs, true, ratio).1 =~= xs,
    decreases xs.len(),
{
    if xs.len() > 0 {
        lemma_bypass_identity(st, xs.drop_last(), ratio);
    }
}

/// Shifting a concatenation equals shifting the parts in order from the
/// carried-over state: the per-sample fold is prefix-compositional.
pub proof fn lemma_shift_samples_append(st: ShifterModel, a: Seq<u32>, b: Seq<u32>, byp: bool,
    ratio: u32)
    ensures
        ({
            let r1 = spec_shift_samples(st, a, byp, ratio);
            let r2 = spec_shift_samples(r1.0, b, byp, ratio);
            let rc = spec_shift_samples(st, a + b, byp, ratio);
            rc.0 == r2.0 && rc.1 == r1.1 + r2.1
        }),
    decreases b.len(),
{
    let r1 = spec_shift_samples(st, a, byp, ratio);
    if b.len() == 0 {
        assert(a + b =~= a);
        assert(r1.1 + spec_shift_samples(r1.0, b, byp, ratio).1 =~= r1.1);
    } else {
        lemma_shift_samples_append(st, a, b.drop_last(), byp, ratio);
        assert((a + b).drop_last() =~= a + b.drop_last());
        assert((a + b).last() == b.last());
        let rp = spec_shift_samples(r1.0, b.drop_last(), byp, ratio);
        let rs = spec_shift_step(rp.0, b.last(), byp, ratio);
        assert(r1.1 + rp.1.push(rs.1) =~= (r1.1 + rp.1).push(rs.1));
    }
}

/// The delay-line pitch shifter.  Values such as the sample rate, samples
/// and the fractional read cursor are binary32 bit patterns.
pub struct MelodyShifter {
    sample_rate: u32,
    buffer: Vec<u32>,
    write_idx: usize,
    delay_pos: u32,
}

impl View for MelodyShifter {
    type V = ShifterModel;

    closed spec fn view(&self) -> ShifterModel {
        ShifterModel {
            sr: self.sample_rate,
            buf: self.buffer@,
            widx: self.write_idx as int,
            dp: self.delay_pos,
        }
    }
}

impl MelodyShifter {
    /// Allocates the circular delay buffer: about 40 ms of audio at the
    /// given sample rate, clamped into `[256, 16384]` samples, zero-filled.
    pub fn new(sample_rate: u32) -> (s: MelodyShifter)
        ensures
            shifter_wf(s@),
            s@.sr == sample_rate,
            s@.buf.len() == spec_delay_len(sample_rate),
            forall|i: int| 0 <= i < s@.buf.len() ==> s@.buf[i] == B_ZERO,
            s@.widx == 0,
            s@.dp == B_ZERO,
    {
        let raw = fx_to_u64(fx_round(fx_mul(sample_rate, B_0_04)));
        let clamped: u64 = if raw < 256 {
            256
        } else if raw > 16384 {
            16384
        } else {
            raw
        };
        let max_delay: usize = clamped as usize;
        let mut buffer: Vec<u32> = Vec::new();
        while buffer.len() < max_delay
            invariant
                buffer@.len() <= max_delay,
                forall|i: int| 0 <= i < buffer@.len() ==> buffer@[i] == B_ZERO,
            decreases max_delay - buffer@.len(),
        {
            buffer.push(B_ZERO);
        }
        MelodyShifter { sample_rate, buffer, write_idx: 0, delay_pos: B_ZERO }
    }

    /// The configured sample rate, as a binary32 bit pattern.
    pub fn sample_rate(&self) -> (r: u32)
        ensures
            r == self@.sr,
    {
        self.sample_rate
    }

    /// The length of the delay buffer in samples.
    pub fn delay_len(&self) -> (r: usize)
        ensures
            r as int == self@.buf.len(),
    {
        self.buffer.len()
    }

    fn read_interp(buffer: &Vec<u32>, write_idx: usize, d: u32) -> (r: u32)
        ensures
            r == spec_read_interp(buffer@, write_idx as int, d),
    {
        let len = buffer.len();
        if len <= 1 {
            return B_ZERO;
        }
        let lenf = fx_from_u64(len as u64);
        let pos0 = fx_fmod(fx_sub(fx_from_u64(write_idx as u64), d), lenf);
        let pos = if f_lt(pos0, B_ZERO) {
            fx_add(pos0, lenf)
        } else {
            pos0
        };
        let i0u = fx_to_u64(fx_floor(pos));
        let i0: usize = if i0u >= len as u64 {
            len - 1
        } else {
            i0u as usize
        };
        let frac = fx_sub(pos, fx_from_u64(i0 as u64));
        let i1: usize = if i0 + 1 >= len {
            0
        } else {
            i0 + 1
        };
        let a = buffer[i0];
        let b = buffer[i1];
        fx_add(a, fx_mul(fx_sub(b, a), frac))
    }

    fn step_sample(&mut self, x: u32, byp: bool, ratio: u32) -> (y: u32)
        requires
            shifter_wf(old(self)@),
        ensures
            shifter_wf(final(self)@),
            ({
                let r = spec_shift_step(old(self)@, x, byp, ratio);
                final(self)@ == r.0 && y == r.1
            }),
    {
        let len = self.buffer.len();
        let lenf = fx_from_u64(len as u64);
        self.buffer.set(self.write_idx, x);
        let out = if byp {
            x
        } else {
            let half = fx_mul(lenf, B_HALF);
            let d1 = self.delay_pos;
            let d2a = fx_add(d1, half);
            let d2 = if f_le(lenf, d2a) {
                fx_sub(d2a, lenf)
            } else {
                d2a
            };
            let y1 = Self::read_interp(&self.buffer, self.write_idx, d1);
            let y2 = Self::read_interp(&self.buffer, self.write_idx, d2);
            let fade = fx_sub(B_HALF, fx_mul(B_HALF, fx_cos(fx_div(fx_mul(B_TWO_PI, d1), lenf))));
            fx_add(fx_mul(y1, fade), fx_mul(y2, fx_sub(B_ONE, fade)))
        };
        self.write_idx = if self.write_idx + 1 >= len {
            0
        } else {
            self.write_idx + 1
        };
        let dp1 = fx_add(self.delay_pos, fx_sub(B_ONE, ratio));
        let dp2 = if f_lt(dp1, B_ZERO) {
            fx_add(dp1, lenf)
        } else {
            dp1
        };
        self.delay_pos = if f_le(lenf, dp2) {
            fx_sub(dp2, lenf)
        } else {
            dp2
        };
        out
    }

    /// Processes the samples `buf[from..to]` in place with a fixed semitone
    /// offset, carrying the shifter state forward sample by sample; the rest
    /// of `buf` is untouched.
    pub(crate) fn process_range(&mut self, buf: &mut Vec<u32>, from: usize, to: usize, semitones:
        u32)
        requires
            shifter_wf(old(self)@),
            from <= to,
            to <= old(buf)@.len(),
        ensures
            shifter_wf(final(self)@),
            final(buf)@.len() == old(buf)@.len(),
            ({
                let r = spec_process_block(old(self)@, old(buf)@.subrange(from as int, to as int),
                    semitones);
                final(self)@ == r.0 && final(buf)@ == old(buf)@.subrange(0, from as int) + r.1
                    + old(buf)@.subrange(to as int, old(buf)@.len() as int)
            }),
    {
        let ghost xs = buf@.subrange(from as int, to as int);
        if from == to {
            proof {
                assert(buf@ =~= buf@.subrange(0, from as int) + xs + buf@.subrange(to as int,
                    buf@.len() as int));
            }
            return;
        }
        let ratio = Self::ratio_of(semitones);
        let byp = Self::bypass_of(semitones, ratio);
        let mut i = from;
        while i < to
            invariant
                shifter_wf(self@),
                from <= i <= to,
                to <= buf@.len(),
                buf@.len() == old(buf)@.len(),
                xs == old(buf)@.subrange(from as int, to as int),
                ({
                    let r = spec_shift_samples(old(self)@, xs.subrange(0, i - from), byp, ratio);
                    self@ == r.0 && buf@ =~= old(buf)@.subrange(0, from as int) + r.1
                        + old(buf)@.subrange(i as int, old(buf)@.len() as int)
                }),
            decreases to - i,
        {
            let ghost prefix = xs.subrange(0, i - from);
            let x = buf[i];
            assert(x == xs[i - from]);
            let y = self.step_sample(x, byp, ratio);
            buf.set(i, y);
            i += 1;
            proof {
                let next = xs.subrange(0, i - from);
                assert(next.drop_last() =~= prefix);
                assert(next.last() == xs[i - 1 - from]);
                let r = spec_shift_samples(old(self)@, next, byp, ratio);
                assert(buf@ =~= old(buf)@.subrange(0, from as int) + r.1 + old(buf)@.subrange(
                    i as int, old(buf)@.len() as int));
            }
        }
        proof {
            assert(xs.subrange(0, to - from) =~= xs);
        }
    }

    /// Pitch-shifts the whole buffer in place by `semitones` (binary32 bit
    /// pattern; positive raises, negative lowers).  Offsets smaller in
    /// magnitude than a thousandth of a semitone bypass exactly: the output
    /// equals the input sample for sample.
    pub fn process_block(&mut self, input: &mut Vec<u32>, semitones: u32)
        requires
            shifter_wf(old(self)@),
        ensures
            shifter_wf(final(self)@),
            ({
                let r = spec_process_block(old(self)@, old(input)@, semitones);
                final(self)@ == r.0 && final(input)@ == r.1
            }),
            flt(fabs(semitones), B_1E_3) ==> final(input)@ == old(input)@,
    {
        let n = input.len();
        proof {
            assert(old(input)@.subrange(0, n as int) =~= old(input)@);
        }
        self.process_range(input, 0, n, semitones);
        proof {
            let r = spec_process_block(old(self)@, old(input)@, semitones);
            assert(input@ =~= old(input)@.subrange(0, 0) + r.1 + old(input)@.subrange(n as int,
                n as int));
            if flt(fabs(semitones), B_1E_3) && n > 0 {
                let ratio = spec_ratio(semitones);
                lemma_bypass_identity(old(self)@, old(input)@, ratio);
            }
        }
    }

    fn ratio_of(semitones: u32) -> (r: u32)
        ensures
            r == spec_ratio(semitones),
    {
        let r0 = fx_exp2(fx_div(semitones, B_TWELVE));
        let r1 = if !f_is_finite(r0) || f_le(r0, B_ZERO) {
            B_ONE
        } else {
            r0
        };
        f_min(f_max(r1, B_HALF), B_TWO)
    }

    fn bypass_of(semitones: u32, ratio: u32) -> (r: bool)
        ensures
            r == spec_bypass(semitones, ratio),
    {
        f_lt(f_abs(semitones), B_1E_3) || f_lt(f_abs(fx_sub(ratio, B_ONE)), B_1E_3)
    }
}

} // verus!
