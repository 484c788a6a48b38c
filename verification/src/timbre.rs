//! Harmonic/formant shaping stage.
//!
//! For the active note a fundamental is estimated from its absolute pitch;
//! a bank of constant-skirt-gain bandpass biquads at harmonic multiples of
//! the fundamental filters the signal, the weighted band sum is blended
//! back into the dry signal, soft-clipped and clamped; a one-pole low-pass
//! split then tilts the spectrum for the note's formant shift.  The bank
//! is rebuilt (coefficients and state zeroed) when the harmonic count
//! changes or the fundamental has drifted by more than eight percent
//! relative to the stored one; an unusable stored fundamental always
//! rebuilds.  The fundamental is constant while one note stays active and
//! the bank is cleared whenever the active note changes, so within one
//! note the drift test never fires after the first rebuild.

use vstd::prelude::*;
use crate::fbits::{
    fabs, fle, flt, fmax, fmin, fneg, is_finite, f_abs, f_is_finite, f_le, f_lt, f_max, f_min,
    f_neg, B_0_08, B_0_1, B_0_49, B_0_75, B_0_9, B_0_98, B_1E_3, B_80, B_900, B_A440, B_HALF,
    B_NEG_ONE,
    B_NEG_TWO, B_NEG_TWO_PI, B_ONE, B_QUARTER, B_SIXTY_NINE, B_TWELVE, B_TWO, B_TWO_PI, B_ZERO,
};
use crate::fmath::{
    fx_cos, fx_exp, fx_exp2, fx_sin, fx_sqrt, fx_tanh, spec_cos, spec_exp, spec_exp2, spec_sin,
    spec_sqrt, spec_tanh,
};
use crate::fx::{
    f32_add, f32_div, f32_from_u64, f32_mul, f32_sub, fx_add, fx_div, fx_from_u64, fx_mul, fx_sub,
};
use crate::notes::NoteModel;

verus! {

/// A direct-form-II-transposed biquad section: five coefficients and two
/// state registers, all binary32 bit patterns.
#[derive(Clone, Copy, PartialEq, Eq, Structural)]
pub struct Biquad {
    pub b0: u32,
    pub b1: u32,
    pub b2: u32,
    pub a1: u32,
    pub a2: u32,
    pub z1: u32,
    pub z2: u32,
}

/// Process-wide table of per-harmonic linear gains (1-based harmonics);
/// harmonics beyond the table default to unity gain.
pub struct HarmonicEQ {
    pub gains: Vec<u32>,
}

/// The gain of harmonic slot `idx` (0-based): the table entry, or unity
/// beyond the table.
pub open spec fn spec_eq_gain(gains: Seq<u32>, idx: int) -> u32 {
    if 0 <= idx < gains.len() {
        gains[idx]
    } else {
        B_ONE
    }
}

impl HarmonicEQ {
    pub fn new() -> (r: HarmonicEQ)
        ensures
            r.gains@ =~= Seq::<u32>::empty(),
    {
        HarmonicEQ { gains: Vec::new() }
    }

    pub fn gain(&self, idx: usize) -> (r: u32)
        ensures
            r == spec_eq_gain(self.gains@, idx as int),
    {
        if idx < self.gains.len() {
            self.gains[idx]
        } else {
            B_ONE
        }
    }
}

/// Equal-tempered MIDI-to-frequency mapping: `440 * 2^((m - 69) / 12)`.
pub open spec fn spec_midi_to_hz(m: u32) -> u32 {
    f32_mul(B_A440, spec_exp2(f32_div(f32_sub(m, B_SIXTY_NINE), B_TWELVE)))
}

pub(crate) fn midi_to_hz(m: u32) -> (r: u32)
    ensures
        r == spec_midi_to_hz(m),
{
    fx_mul(B_A440, fx_exp2(fx_div(fx_sub(m, B_SIXTY_NINE), B_TWELVE)))
}

/// The fundamental estimated for a note: its base pitch plus the pitch
/// center offset, mapped to hertz.
pub open spec fn spec_f0_of(note: NoteModel) -> u32 {
    spec_midi_to_hz(f32_add(note.base_semitone, note.pitch_center_offset))
}

/// RBJ constant-skirt-gain bandpass coefficients at center `f0` and
/// quality `q`, center clamped into `[1, 0.49 * rate]`, states zeroed.
pub open spec fn spec_new_bandpass(sr: u32, f0: u32, q: u32) -> Biquad {
    let f0c = fmin(fmax(f0, B_ONE), f32_mul(sr, B_0_49));
    let w0 = f32_div(f32_mul(B_TWO_PI, f0c), sr);
    let cos_w0 = spec_cos(w0);
    let sin_w0 = spec_sin(w0);
    let alpha = f32_div(sin_w0, f32_mul(B_TWO, fmax(q, B_0_1)));
    let a0 = f32_add(B_ONE, alpha);
    Biquad {
        b0: f32_div(alpha, a0),
        b1: f32_div(B_ZERO, a0),
        b2: f32_div(fneg(alpha), a0),
        a1: f32_div(f32_mul(B_NEG_TWO, cos_w0), a0),
        a2: f32_div(f32_sub(B_ONE, alpha), a0),
        z1: B_ZERO,
        z2: B_ZERO,
    }
}

pub(crate) fn new_bandpass(sr: u32, f0: u32, q: u32) -> (r: Biquad)
    ensures
        r == spec_new_bandpass(sr, f0, q),
{
    let f0c = f_min(f_max(f0, B_ONE), fx_mul(sr, B_0_49));
    let w0 = fx_div(fx_mul(B_TWO_PI, f0c), sr);
    let cos_w0 = fx_cos(w0);
    let sin_w0 = fx_sin(w0);
    let alpha = fx_div(sin_w0, fx_mul(B_TWO, f_max(q, B_0_1)));
    let a0 = fx_add(B_ONE, alpha);
    Biquad {
        b0: fx_div(alpha, a0),
        b1: fx_div(B_ZERO, a0),
        b2: fx_div(f_neg(alpha), a0),
        a1: fx_div(fx_mul(B_NEG_TWO, cos_w0), a0),
        a2: fx_div(fx_sub(B_ONE, alpha), a0),
        z1: B_ZERO,
        z2: B_ZERO,
    }
}

/// One sample through a biquad (direct form II transposed).
pub open spec fn spec_biquad_step(f: Biquad, x: u32) -> (Biquad, u32) {
    let y = f32_add(f32_mul(f.b0, x), f.z1);
    let z1 = f32_add(f32_sub(f32_mul(f.b1, x), f32_mul(f.a1, y)), f.z2);
    let z2 = f32_sub(f32_mul(f.b2, x), f32_mul(f.a2, y));
    (Biquad { z1, z2, ..f }, y)
}

fn biquad_step(f: &mut Biquad, x: u32) -> (y: u32)
    ensures
        ({
            let r = spec_biquad_step(*old(f), x);
            *final(f) == r.0 && y == r.1
        }),
{
    let y = fx_add(fx_mul(f.b0, x), f.z1);
    f.z1 = fx_add(fx_sub(fx_mul(f.b1, x), fx_mul(f.a1, y)), f.z2);
    f.z2 = fx_sub(fx_mul(f.b2, x), fx_mul(f.a2, y));
    y
}

/// Timbre state tied to the active note: the filter bank, the one-pole
/// low-pass register, and the fundamental the bank was built for.
#[verifier::ext_equal]
pub struct TimbreModel {
    pub filters: Seq<Biquad>,
    pub lp: u32,
    pub last_f0: u32,
}

/// The sample rate accepted for processing: finite and strictly positive.
pub open spec fn spec_sr_valid(sr: u32) -> bool {
    is_finite(sr) && flt(B_ZERO, sr)
}

/// The capped blend weight of harmonic slot `h`: the product of the global
/// and the per-note gain, clamped into `[0, 2]`.
pub open spec fn spec_cap_gain(geq: Seq<u32>, prof: Seq<u32>, h: int) -> u32 {
    let g = f32_mul(spec_eq_gain(geq, h), spec_eq_gain(prof, h));
    fmin(fmax(g, B_ZERO), B_TWO)
}

/// How many harmonics are usable: multiples of the fundamental scanned in
/// order from `h` while they stay finite and below the limit, stopping at
/// the first failure; `n` caps the count.
pub open spec fn spec_take_count(f0: u32, lim: u32, h: int, n: int) -> int
    decreases n + 1 - h,
{
    if h > n || n + 1 - h <= 0 {
        0
    } else {
        let fh = f32_mul(f0, f32_from_u64(h as u64));
        if is_finite(fh) && flt(fh, lim) {
            1 + spec_take_count(f0, lim, h + 1, n)
        } else {
            0
        }
    }
}

/// The harmonic count for a note: the smaller of the global and the
/// per-note table lengths, capped at 24, then capped by how many multiples
/// of the fundamental stay below 98% of Nyquist.
pub open spec fn spec_desired(f0: u32, sr: u32, geq: Seq<u32>, prof: Seq<u32>) -> int {
    let n0 = if geq.len() <= prof.len() {
        geq.len() as int
    } else {
        prof.len() as int
    };
    let n = if n0 <= 24 {
        n0
    } else {
        24
    };
    let lim = f32_mul(f32_mul(sr, B_HALF), B_0_98);
    spec_take_count(f0, lim, 1, n)
}

/// Relative drift of the fundamental against the stored one:
/// `|(f0 - last) / last|`, taken as full drift when the stored value is
/// not finite and positive.  For a stored value bitwise equal to the
/// current fundamental the formula's value is written out - exactly
/// positive zero, since the difference of equal finite values is `+0.0`
/// and zero over a positive value is zero, as the arithmetic wrappers
/// state.
pub open spec fn spec_rel_drift(f0: u32, last: u32) -> u32 {
    if !is_finite(last) || !flt(B_ZERO, last) {
        B_ONE
    } else if last == f0 {
        B_ZERO
    } else {
        fabs(f32_div(f32_sub(f0, last), last))
    }
}

/// The rebuild ("dirty") check at the head of each processed span: the
/// bank is rebuilt, with zeroed states and the fundamental recorded, when
/// the harmonic count differs or the fundamental has drifted by more than
/// eight percent relative to the stored one (hysteresis against resetting
/// filter memory, and thus micro-clicks, on a slowly drifting pitch); the
/// low-pass register is kept either way.
pub open spec fn spec_timbre_entry(tm: TimbreModel, note: NoteModel, sr: u32, geq: Seq<u32>)
    -> TimbreModel {
    let f0 = spec_f0_of(note);
    let desired = spec_desired(f0, sr, geq, note.harmonic_profile);
    if tm.filters.len() != desired || flt(B_0_08, spec_rel_drift(f0, tm.last_f0)) {
        TimbreModel {
            filters: Seq::new(
                desired as nat,
                |h: int| spec_new_bandpass(sr, f32_mul(f0, f32_from_u64((h + 1) as u64)), B_TWELVE),
            ),
            lp: tm.lp,
            last_f0: f0,
        }
    } else {
        tm
    }
}

/// The first `k` filters applied to one sample, accumulating the weighted
/// band outputs in order.
pub open spec fn spec_bank_upto(filters: Seq<Biquad>, x: u32, geq: Seq<u32>, prof: Seq<u32>,
    k: int) -> (Seq<Biquad>, u32)
    decreases k,
{
    if k <= 0 {
        (filters, B_ZERO)
    } else {
        let r = spec_bank_upto(filters, x, geq, prof, k - 1);
        let s = spec_biquad_step(r.0[k - 1], x);
        (r.0.update(k - 1, s.0), f32_add(r.1, f32_mul(s.1, spec_cap_gain(geq, prof, k - 1))))
    }
}

/// One sample through the harmonic stage: filter-bank blend, soft clip,
/// hard clamp.
pub open spec fn spec_harm_step(filters: Seq<Biquad>, x: u32, geq: Seq<u32>, prof: Seq<u32>) -> (
    Seq<Biquad>,
    u32,
) {
    let r = spec_bank_upto(filters, x, geq, prof, filters.len() as int);
    let nf = if filters.len() >= 1 {
        filters.len() as u64
    } else {
        1u64
    };
    let acc = f32_div(r.1, f32_from_u64(nf));
    let y = f32_add(f32_mul(x, B_0_75), f32_mul(acc, B_QUARTER));
    let yc = spec_tanh(y);
    (r.0, fmin(fmax(yc, B_NEG_ONE), B_ONE))
}

/// The harmonic stage folded over a block of samples.
pub open spec fn spec_harm_samples(filters: Seq<Biquad>, xs: Seq<u32>, geq: Seq<u32>,
    prof: Seq<u32>) -> (Seq<Biquad>, Seq<u32>)
    decreases xs.len(),
{
    if xs.len() == 0 {
        (filters, Seq::empty())
    } else {
        let r1 = spec_harm_samples(filters, xs.drop_last(), geq, prof);
        let r2 = spec_harm_step(r1.0, xs.last(), geq, prof);
        (r2.0, r1.1.push(r2.1))
    }
}

/// One sample through the spectral-tilt stage: one-pole low-pass split,
/// reweighted recombination, soft clip, hard clamp.
pub open spec fn spec_formant_step(lp: u32, x: u32, a: u32, glo: u32, ghi: u32) -> (u32, u32) {
    let lp1 = f32_add(f32_mul(a, lp), f32_mul(f32_sub(B_ONE, a), x));
    let high = f32_sub(x, lp1);
    let y = f32_add(f32_mul(lp1, glo), f32_mul(high, ghi));
    let yc = spec_tanh(y);
    (lp1, fmin(fmax(yc, B_NEG_ONE), B_ONE))
}

/// The spectral-tilt stage folded over a block of samples.
pub open spec fn spec_formant_samples(lp: u32, xs: Seq<u32>, a: u32, glo: u32, ghi: u32) -> (
    u32,
    Seq<u32>,
)
    decreases xs.len(),
{
    if xs.len() == 0 {
        (lp, Seq::empty())
    } else {
        let r1 = spec_formant_samples(lp, xs.drop_last(), a, glo, ghi);
        let r2 = spec_formant_step(r1.0, xs.last(), a, glo, ghi);
        (r2.0, r1.1.push(r2.1))
    }
}

/// The whole shaping stage over one span of samples belonging to `note`:
/// nothing happens on an empty span, an unusable rate, or an unusable
/// fundamental; otherwise the rebuild check runs once, the harmonic stage
/// processes every sample, and the tilt stage runs when the note carries a
/// material formant shift.
pub open spec fn spec_timbre_apply(tm: TimbreModel, xs: Seq<u32>, note: NoteModel, sr: u32,
    geq: Seq<u32>) -> (TimbreModel, Seq<u32>) {
    if xs.len() == 0 {
        (tm, xs)
    } else if !spec_sr_valid(sr) {
        (tm, xs)
    } else {
        let f0 = spec_f0_of(note);
        if !is_finite(f0) || fle(f0, B_ZERO) {
            (tm, xs)
        } else {
            let tm1 = spec_timbre_entry(tm, note, sr, geq);
            let hr = spec_harm_samples(tm1.filters, xs, geq, note.harmonic_profile);
            let s = note.formant_shift;
            if is_finite(s) && flt(B_1E_3, fabs(s)) {
                let tilt = spec_exp2(f32_div(s, B_TWELVE));
                let ghi = fmin(fmax(spec_sqrt(tilt), B_HALF), B_TWO);
                let glo = fmin(fmax(spec_sqrt(f32_div(B_ONE, tilt)), B_HALF), B_TWO);
                let nyq = f32_mul(sr, B_HALF);
                let fc = fmax(fmin(B_900, f32_mul(nyq, B_0_9)), B_80);
                let a = spec_exp(f32_div(f32_mul(B_NEG_TWO_PI, fc), sr));
                let fr = spec_formant_samples(tm1.lp, hr.1, a, glo, ghi);
                (TimbreModel { filters: hr.0, lp: fr.0, last_f0: tm1.last_f0 }, fr.1)
            } else {
                (TimbreModel { filters: hr.0, lp: tm1.lp, last_f0: tm1.last_f0 }, hr.1)
            }
        }
    }
}

/// The harmonic fold preserves the size of the filter bank.
pub proof fn lemma_bank_len(filters: Seq<Biquad>, x: u32, geq: Seq<u32>, prof: Seq<u32>, k: int)
    requires
        0 <= k <= filters.len(),
    ensures
        spec_bank_upto(filters, x, geq, prof, k).0.len() == filters.len(),
    decreases k,
{
    if k > 0 {
        lemma_bank_len(filters, x, geq, prof, k - 1);
    }
}

/// The per-block folds preserve the size of the filter bank.
pub proof fn lemma_harm_samples_len(filters: Seq<Biquad>, xs: Seq<u32>, geq: Seq<u32>,
    prof: Seq<u32>)
    ensures
        spec_harm_samples(filters, xs, geq, prof).0.len() == filters.len(),
        spec_harm_samples(filters, xs, geq, prof).1.len() == xs.len(),
    decreases xs.len(),
{
    if xs.len() > 0 {
        lemma_harm_samples_len(filters, xs.drop_last(), geq, prof);
        let r1 = spec_harm_samples(filters, xs.drop_last(), geq, prof);
        lemma_bank_len(r1.0, xs.last(), geq, prof, r1.0.len() as int);
    }
}

/// The tilt fold yields one output per input.
pub proof fn lemma_formant_samples_len(lp: u32, xs: Seq<u32>, ca: u32, glo: u32, ghi: u32)
    ensures
        spec_formant_samples(lp, xs, ca, glo, ghi).1.len() == xs.len(),
    decreases xs.len(),
{
    if xs.len() > 0 {
        lemma_formant_samples_len(lp, xs.drop_last(), ca, glo, ghi);
    }
}

/// The whole shaping stage yields one output per input.
pub proof fn lemma_timbre_apply_len(tm: TimbreModel, xs: Seq<u32>, note: NoteModel, sr: u32,
    geq: Seq<u32>)
    ensures
        spec_timbre_apply(tm, xs, note, sr, geq).1.len() == xs.len(),
{
    if xs.len() != 0 && spec_sr_valid(sr) {
        let f0 = spec_f0_of(note);
        if !(!is_finite(f0) || fle(f0, B_ZERO)) {
            let tm1 = spec_timbre_entry(tm, note, sr, geq);
            lemma_harm_samples_len(tm1.filters, xs, geq, note.harmonic_profile);
            let hr = spec_harm_samples(tm1.filters, xs, geq, note.harmonic_profile);
            let s = note.formant_shift;
            if is_finite(s) && flt(B_1E_3, fabs(s)) {
                let tilt = spec_exp2(f32_div(s, B_TWELVE));
                let ghi = fmin(fmax(spec_sqrt(tilt), B_HALF), B_TWO);
                let glo = fmin(fmax(spec_sqrt(f32_div(B_ONE, tilt)), B_HALF), B_TWO);
                let nyq = f32_mul(sr, B_HALF);
                let fc = fmax(fmin(B_900, f32_mul(nyq, B_0_9)), B_80);
                let ca = spec_exp(f32_div(f32_mul(B_NEG_TWO_PI, fc), sr));
                lemma_formant_samples_len(tm1.lp, hr.1, ca, glo, ghi);
            }
        }
    }
}

/// The harmonic fold over a concatenation equals folding the parts in
/// order.
pub proof fn lemma_harm_samples_append(filters: Seq<Biquad>, a: Seq<u32>, b: Seq<u32>,
    geq: Seq<u32>, prof: Seq<u32>)
    ensures
        ({
            let r1 = spec_harm_samples(filters, a, geq, prof);
            let r2 = spec_harm_samples(r1.0, b, geq, prof);
            let rc = spec_harm_samples(filters, a + b, geq, prof);
            rc.0 == r2.0 && rc.1 == r1.1 + r2.1
        }),
    decreases b.len(),
{
    let r1 = spec_harm_samples(filters, a, geq, prof);
    if b.len() == 0 {
        assert(a + b =~= a);
        assert(r1.1 + spec_harm_samples(r1.0, b, geq, prof).1 =~= r1.1);
    } else {
        lemma_harm_samples_append(filters, a, b.drop_last(), geq, prof);
        assert((a + b).drop_last() =~= a + b.drop_last());
        assert((a + b).last() == b.last());
        let rp = spec_harm_samples(r1.0, b.drop_last(), geq, prof);
        let rs = spec_harm_step(rp.0, b.last(), geq, prof);
        assert(r1.1 + rp.1.push(rs.1) =~= (r1.1 + rp.1).push(rs.1));
    }
}

/// The tilt fold over a concatenation equals folding the parts in order.
pub proof fn lemma_formant_samples_append(lp: u32, a: Seq<u32>, b: Seq<u32>, ca: u32, glo: u32,
    ghi: u32)
    ensures
        ({
            let r1 = spec_formant_samples(lp, a, ca, glo, ghi);
            let r2 = spec_formant_samples(r1.0, b, ca, glo, ghi);
            let rc = spec_formant_samples(lp, a + b, ca, glo, ghi);
            rc.0 == r2.0 && rc.1 == r1.1 + r2.1
        }),
    decreases b.len(),
{
    let r1 = spec_formant_samples(lp, a, ca, glo, ghi);
    if b.len() == 0 {
        assert(a + b =~= a);
        assert(r1.1 + spec_formant_samples(r1.0, b, ca, glo, ghi).1 =~= r1.1);
    } else {
        lemma_formant_samples_append(lp, a, b.drop_last(), ca, glo, ghi);
        assert((a + b).drop_last() =~= a + b.drop_last());
        assert((a + b).last() == b.last());
        let rp = spec_formant_samples(r1.0, b.drop_last(), ca, glo, ghi);
        let rs = spec_formant_step(rp.0, b.last(), ca, glo, ghi);
        assert(r1.1 + rp.1.push(rs.1) =~= (r1.1 + rp.1).push(rs.1));
    }
}

/// The usable-harmonic count is never negative.
pub proof fn lemma_take_count_nonneg(f0: u32, lim: u32, h: int, n: int)
    ensures
        spec_take_count(f0, lim, h, n) >= 0,
    decreases n + 1 - h,
{
    if !(h > n || n + 1 - h <= 0) {
        lemma_take_count_nonneg(f0, lim, h + 1, n);
    }
}

/// After the rebuild check the bank size matches the harmonic count, the
/// low-pass register is untouched, and the check is idempotent: any state
/// with that bank size and the same stored fundamental passes a repeated
/// check unchanged (a usable fundamental has exactly zero drift against a
/// bitwise-equal stored one, and an unrebuilt state already had drift
/// within the threshold).
pub proof fn lemma_entry_post(tm: TimbreModel, note: NoteModel, sr: u32, geq: Seq<u32>)
    requires
        is_finite(spec_f0_of(note)),
        flt(B_ZERO, spec_f0_of(note)),
    ensures
        ({
            let f0 = spec_f0_of(note);
            let desired = spec_desired(f0, sr, geq, note.harmonic_profile);
            let tm1 = spec_timbre_entry(tm, note, sr, geq);
            &&& tm1.filters.len() == desired
            &&& tm1.lp == tm.lp
            &&& forall|tm2: TimbreModel|
                tm2.filters.len() == desired && tm2.last_f0 == tm1.last_f0
                    ==> #[trigger] spec_timbre_entry(tm2, note, sr, geq) == tm2
        }),
{
    let f0 = spec_f0_of(note);
    let lim = f32_mul(f32_mul(sr, B_HALF), B_0_98);
    let n0 = if geq.len() <= note.harmonic_profile.len() {
        geq.len() as int
    } else {
        note.harmonic_profile.len() as int
    };
    let n = if n0 <= 24 {
        n0
    } else {
        24
    };
    lemma_take_count_nonneg(f0, lim, 1, n);
    let desired = spec_desired(f0, sr, geq, note.harmonic_profile);
    let tm1 = spec_timbre_entry(tm, note, sr, geq);
    assert forall|tm2: TimbreModel|
        tm2.filters.len() == desired && tm2.last_f0 == tm1.last_f0 implies #[trigger]
        spec_timbre_entry(tm2, note, sr, geq) == tm2 by {
        if tm.filters.len() != desired || flt(B_0_08, spec_rel_drift(f0, tm.last_f0)) {
            // the first check rebuilt and stored the current fundamental:
            // the drift against it is exactly zero
            assert(tm2.last_f0 == f0);
            assert(spec_rel_drift(f0, tm2.last_f0) == B_ZERO);
            assert(!flt(B_0_08, B_ZERO));
        } else {
            // the first check already passed; the repeated check sees the
            // same bank size and the same stored fundamental
            assert(spec_rel_drift(f0, tm2.last_f0) == spec_rel_drift(f0, tm.last_f0));
        }
    }
}

fn desired_count(f0: u32, sr: u32, geq: &HarmonicEQ, prof: &Vec<u32>) -> (r: usize)
    ensures
        r as int == spec_desired(f0, sr, geq.gains@, prof@),
        r <= 24,
{
    let n0 = if geq.gains.len() <= prof.len() {
        geq.gains.len()
    } else {
        prof.len()
    };
    let n: usize = if n0 <= 24 {
        n0
    } else {
        24
    };
    let lim = fx_mul(fx_mul(sr, B_HALF), B_0_98);
    let mut count: usize = 0;
    let mut h: usize = 1;
    let mut going = true;
    while going && h <= n
        invariant
            1 <= h <= n + 1,
            count == h - 1,
            n <= 24,
            going ==> spec_take_count(f0, lim, 1, n as int) == count + spec_take_count(f0, lim,
                h as int, n as int),
            !going ==> spec_take_count(f0, lim, 1, n as int) == count,
        decreases n + 1 - h, (if going { 1int } else { 0int }),
    {
        let fh = fx_mul(f0, fx_from_u64(h as u64));
        if f_is_finite(fh) && f_lt(fh, lim) {
            proof {
                assert(spec_take_count(f0, lim, h as int, n as int) == 1 + spec_take_count(f0,
                    lim, h as int + 1, n as int));
            }
            count += 1;
            h += 1;
        } else {
            proof {
                assert(spec_take_count(f0, lim, h as int, n as int) == 0);
            }
            going = false;
        }
    }
    proof {
        if going {
            assert(spec_take_count(f0, lim, h as int, n as int) == 0);
        }
    }
    count
}

/// Applies the harmonic blend and the formant tilt to `input[from..to]` in
/// place for the given note, updating the filter bank, the low-pass
/// register and the stored fundamental exactly as the shaping spec says.
pub(crate) fn apply_harmonic_and_formant(
    input: &mut Vec<u32>,
    from: usize,
    to: usize,
    sr: u32,
    geq: &HarmonicEQ,
    note: &crate::notes::NoteSpan,
    filters: &mut Vec<Biquad>,
    lp: &mut u32,
    last_f0: &mut u32,
)
    requires
        from <= to,
        to <= old(input)@.len(),
    ensures
        final(input)@.len() == old(input)@.len(),
        ({
            let tm0 = TimbreModel {
                filters: old(filters)@,
                lp: *old(lp),
                last_f0: *old(last_f0),
            };
            let r = spec_timbre_apply(tm0, old(input)@.subrange(from as int, to as int), note@, sr,
                geq.gains@);
            final(filters)@ =~= r.0.filters && *final(lp) == r.0.lp && *final(last_f0)
                == r.0.last_f0 && final(input)@ == old(input)@.subrange(0, from as int) + r.1
                + old(input)@.subrange(to as int, old(input)@.len() as int)
        }),
{
    let ghost tm0 = TimbreModel { filters: filters@, lp: *lp, last_f0: *last_f0 };
    let ghost xs = input@.subrange(from as int, to as int);
    let ghost whole = input@;
    if from == to || !f_is_finite(sr) || f_le(sr, B_ZERO) {
        proof {
            assert(input@ =~= input@.subrange(0, from as int) + xs + input@.subrange(to as int,
                input@.len() as int));
        }
        return;
    }
    proof {
        crate::fbits::lemma_const_classes();
        assert(spec_sr_valid(sr));
    }
    let f0 = midi_to_hz(fx_add(note.base_semitone, note.pitch_center_offset));
    if !f_is_finite(f0) || f_le(f0, B_ZERO) {
        proof {
            assert(input@ =~= input@.subrange(0, from as int) + xs + input@.subrange(to as int,
                input@.len() as int));
        }
        return;
    }
    // rebuild check: bank size changed or the fundamental drifted
    let desired = desired_count(f0, sr, geq, &note.harmonic_profile);
    let rel = if f_is_finite(*last_f0) && f_lt(B_ZERO, *last_f0) {
        f_abs(fx_div(fx_sub(f0, *last_f0), *last_f0))
    } else {
        B_ONE
    };
    proof {
        crate::fbits::lemma_bits_arith(B_ZERO);
        assert(rel == spec_rel_drift(f0, *last_f0));
    }
    if filters.len() != desired || f_lt(B_0_08, rel) {
        filters.clear();
        let mut h: usize = 0;
        while h < desired
            invariant
                h <= desired,
                filters@.len() == h,
                forall|t: int|
                    0 <= t < h ==> filters@[t] == spec_new_bandpass(sr, f32_mul(f0,
                        f32_from_u64((t + 1) as u64)), B_TWELVE),
            decreases desired - h,
        {
            let fh = fx_mul(f0, fx_from_u64((h + 1) as u64));
            filters.push(new_bandpass(sr, fh, B_TWELVE));
            h += 1;
        }
        *last_f0 = f0;
    }
    let ghost tm1 = spec_timbre_entry(tm0, note@, sr, geq.gains@);
    proof {
        assert(filters@ =~= tm1.filters);
        assert(*last_f0 == tm1.last_f0);
    }
    let ghost entry_filters = filters@;
    // harmonic stage
    let nf: u64 = if filters.len() >= 1 {
        filters.len() as u64
    } else {
        1
    };
    let nff = fx_from_u64(nf);
    let mut i = from;
    while i < to
        invariant
            from <= i <= to,
            to <= input@.len(),
            input@.len() == whole.len(),
            whole == old(input)@,
            xs == whole.subrange(from as int, to as int),
            nf as int == (if entry_filters.len() >= 1 {
                entry_filters.len() as int
            } else {
                1
            }),
            nff == f32_from_u64(nf),
            filters@.len() == entry_filters.len(),
            ({
                let r = spec_harm_samples(entry_filters, xs.subrange(0, i - from), geq.gains@,
                    note@.harmonic_profile);
                filters@ == r.0 && input@ =~= whole.subrange(0, from as int) + r.1
                    + whole.subrange(i as int, whole.len() as int)
            }),
        decreases to - i,
    {
        let ghost prefix = xs.subrange(0, i - from);
        let ghost filters_in = filters@;
        let x = input[i];
        assert(x == xs[i - from]);
        let mut acc = B_ZERO;
        let mut h: usize = 0;
        let flen = filters.len();
        while h < flen
            invariant
                h <= flen,
                flen == filters@.len(),
                flen == filters_in.len(),
                ({
                    let r = spec_bank_upto(filters_in, x, geq.gains@, note@.harmonic_profile,
                        h as int);
                    filters@ == r.0 && acc == r.1
                }),
            decreases flen - h,
        {
            let g_global = geq.gain(h);
            let g_note = if h < note.harmonic_profile.len() {
                note.harmonic_profile[h]
            } else {
                B_ONE
            };
            let g = f_min(f_max(fx_mul(g_global, g_note), B_ZERO), B_TWO);
            let mut fh = filters[h];
            let y = biquad_step(&mut fh, x);
            filters.set(h, fh);
            acc = fx_add(acc, fx_mul(y, g));
            h += 1;
        }
        acc = fx_div(acc, nff);
        let y0 = fx_add(fx_mul(x, B_0_75), fx_mul(acc, B_QUARTER));
        let y1 = fx_tanh(y0);
        let out = f_min(f_max(y1, B_NEG_ONE), B_ONE);
        input.set(i, out);
        i += 1;
        proof {
            let next = xs.subrange(0, i - from);
            assert(next.drop_last() =~= prefix);
            assert(next.last() == xs[i - 1 - from]);
            lemma_harm_samples_len(entry_filters, prefix, geq.gains@, note@.harmonic_profile);
            let r = spec_harm_samples(entry_filters, next, geq.gains@, note@.harmonic_profile);
            assert(input@ =~= whole.subrange(0, from as int) + r.1 + whole.subrange(i as int,
                whole.len() as int));
        }
    }
    proof {
        assert(xs.subrange(0, to - from) =~= xs);
    }
    let ghost hr = spec_harm_samples(entry_filters, xs, geq.gains@, note@.harmonic_profile);
    // formant stage
    let s = note.formant_shift;
    if f_is_finite(s) && f_lt(B_1E_3, f_abs(s)) {
        let tilt = fx_exp2(fx_div(s, B_TWELVE));
        let ghi = f_min(f_max(fx_sqrt(tilt), B_HALF), B_TWO);
        let glo = f_min(f_max(fx_sqrt(fx_div(B_ONE, tilt)), B_HALF), B_TWO);
        let nyq = fx_mul(sr, B_HALF);
        let fc = f_max(f_min(B_900, fx_mul(nyq, B_0_9)), B_80);
        let ca = fx_exp(fx_div(fx_mul(B_NEG_TWO_PI, fc), sr));
        let ghost lp_entry = *lp;
        let mut i = from;
        while i < to
            invariant
                from <= i <= to,
                to <= input@.len(),
                input@.len() == whole.len(),
                whole == old(input)@,
                xs == whole.subrange(from as int, to as int),
                hr == spec_harm_samples(entry_filters, xs, geq.gains@, note@.harmonic_profile),
                hr.1.len() == xs.len(),
                ({
                    let r = spec_formant_samples(lp_entry, hr.1.subrange(0, i - from), ca, glo,
                        ghi);
                    *lp == r.0 && input@ =~= whole.subrange(0, from as int) + r.1
                        + hr.1.subrange(i - from, hr.1.len() as int) + whole.subrange(to as int,
                        whole.len() as int)
                }),
            decreases to - i,
        {
            let ghost prefix = hr.1.subrange(0, i - from);
            let x = input[i];
            assert(x == hr.1[i - from]);
            let lp1 = fx_add(fx_mul(ca, *lp), fx_mul(fx_sub(B_ONE, ca), x));
            *lp = lp1;
            let high = fx_sub(x, lp1);
            let y = fx_add(fx_mul(lp1, glo), fx_mul(high, ghi));
            let yc = fx_tanh(y);
            let out = f_min(f_max(yc, B_NEG_ONE), B_ONE);
            input.set(i, out);
            i += 1;
            proof {
                let next = hr.1.subrange(0, i - from);
                assert(next.drop_last() =~= prefix);
                assert(next.last() == hr.1[i - 1 - from]);
                let r = spec_formant_samples(lp_entry, next, ca, glo, ghi);
                assert(input@ =~= whole.subrange(0, from as int) + r.1 + hr.1.subrange(i - from,
                    hr.1.len() as int) + whole.subrange(to as int, whole.len() as int));
            }
        }
        proof {
            assert(hr.1.subrange(0, to - from) =~= hr.1);
            assert(hr.1.subrange(to - from, hr.1.len() as int) =~= Seq::<u32>::empty());
            let fr = spec_formant_samples(lp_entry, hr.1, ca, glo, ghi);
            assert(input@ =~= whole.subrange(0, from as int) + fr.1 + whole.subrange(to as int,
                whole.len() as int));
        }
    } else {
        proof {
            assert(input@ =~= whole.subrange(0, from as int) + hr.1 + whole.subrange(to as int,
                whole.len() as int));
        }
    }
    proof {
        let r = spec_timbre_apply(tm0, xs, note@, sr, geq.gains@);
        assert(filters@ =~= r.0.filters);
        assert(*lp == r.0.lp);
        assert(*last_f0 == r.0.last_f0);
        assert(input@ =~= whole.subrange(0, from as int) + r.1 + whole.subrange(to as int,
            whole.len() as int));
    }
}

/// Shaping a concatenated span equals shaping the parts in order with the
/// state carried over: the rebuild check is idempotent within one span and
/// both sample folds compose.
pub proof fn lemma_timbre_apply_append(tm: TimbreModel, a: Seq<u32>, b: Seq<u32>, note: NoteModel,
    sr: u32, geq: Seq<u32>)
    ensures
        ({
            let r1 = spec_timbre_apply(tm, a, note, sr, geq);
            let r2 = spec_timbre_apply(r1.0, b, note, sr, geq);
            let rc = spec_timbre_apply(tm, a + b, note, sr, geq);
            rc.0 =~= r2.0 && rc.1 =~= r1.1 + r2.1
        }),
{
    let r1 = spec_timbre_apply(tm, a, note, sr, geq);
    let r2 = spec_timbre_apply(r1.0, b, note, sr, geq);
    let rc = spec_timbre_apply(tm, a + b, note, sr, geq);
    let f0 = spec_f0_of(note);
    if a.len() == 0 {
        assert(a + b =~= b);
        assert(r1.1 + r2.1 =~= r2.1);
    } else if b.len() == 0 {
        assert(a + b =~= a);
        assert(r1.1 + r2.1 =~= r1.1);
    } else if !spec_sr_valid(sr) || !is_finite(f0) || fle(f0, B_ZERO) {
        assert(rc.1 =~= a + b);
        assert(r1.1 + r2.1 =~= a + b);
    } else {
        let prof = note.harmonic_profile;
        let desired = spec_desired(f0, sr, geq, prof);
        let tm1 = spec_timbre_entry(tm, note, sr, geq);
        crate::fbits::lemma_const_classes();
        assert(flt(B_ZERO, f0));
        lemma_entry_post(tm, note, sr, geq);
        let hra = spec_harm_samples(tm1.filters, a, geq, prof);
        lemma_harm_samples_len(tm1.filters, a, geq, prof);
        lemma_harm_samples_append(tm1.filters, a, b, geq, prof);
        // the state after the first span passes the rebuild check untouched
        assert(r1.0.filters.len() == desired);
        assert(r1.0.last_f0 == tm1.last_f0);
        let tm2 = spec_timbre_entry(r1.0, note, sr, geq);
        assert(tm2 == r1.0);
        let s = note.formant_shift;
        if is_finite(s) && flt(B_1E_3, fabs(s)) {
            let tilt = spec_exp2(f32_div(s, B_TWELVE));
            let ghi = fmin(fmax(spec_sqrt(tilt), B_HALF), B_TWO);
            let glo = fmin(fmax(spec_sqrt(f32_div(B_ONE, tilt)), B_HALF), B_TWO);
            let nyq = f32_mul(sr, B_HALF);
            let fc = fmax(fmin(B_900, f32_mul(nyq, B_0_9)), B_80);
            let ca = spec_exp(f32_div(f32_mul(B_NEG_TWO_PI, fc), sr));
            let hrab = spec_harm_samples(tm1.filters, a + b, geq, prof);
            let hrb = spec_harm_samples(hra.0, b, geq, prof);
            lemma_formant_samples_append(tm1.lp, hra.1, hrb.1, ca, glo, ghi);
            assert(hrab.1 =~= hra.1 + hrb.1);
            lemma_harm_samples_len(tm1.filters, a + b, geq, prof);
            lemma_harm_samples_len(hra.0, b, geq, prof);
            assert(rc.0 =~= r2.0);
            assert(rc.1 =~= r1.1 + r2.1);
        } else {
            assert(rc.0 =~= r2.0);
            assert(rc.1 =~= r1.1 + r2.1);
        }
    }
}

} // verus!
