//! Note timeline: validation, clamping and ordering of note spans.
//!
//! A note span is one automation interval: a half-open time span
//! `[start, end)` in seconds with an absolute pitch reference, pitch
//! offsets, modulation amounts, stretch-ramp multipliers, a formant shift
//! and a per-note harmonic gain profile.  Ingestion truncates the parallel
//! parameter arrays to their shortest common length, drops candidates with
//! any non-finite field or with `end <= start`, clamps the remaining fields
//! into their documented ranges, derives the integer sample bounds used by
//! the scheduler, and orders the result by non-decreasing start time.

use vstd::prelude::*;
use crate::fbits::{
    fle, flt, fmax, fmin, is_finite, is_nan, lemma_const_classes, f_is_finite, f_le, f_lt, f_max,
    f_min, B_FOUR, B_HALF, B_ONE, B_TWO, B_ZERO,
};
use crate::fx::{f32_ceil, f32_mul, f32_to_u64, fx_ceil, fx_mul, fx_to_u64};

verus! {

/// One validated note span.  Scalar fields are binary32 bit patterns; the
/// sample bounds are the span's start and end converted to absolute sample
/// indices at the engine's rate.
pub struct NoteSpan {
    pub start: u32,
    pub end: u32,
    pub base_semitone: u32,
    pub pitch_offset: u32,
    pub pitch_center_offset: u32,
    pub pitch_mod_amount: u32,
    pub pitch_drift_amount: u32,
    pub time_stretch_start: u32,
    pub time_stretch_end: u32,
    pub formant_shift: u32,
    pub harmonic_profile: Vec<u32>,
    pub start_sample: u64,
    pub end_sample: u64,
}

/// Mathematical image of a note span.
#[verifier::ext_equal]
pub struct NoteModel {
    pub start: u32,
    pub end: u32,
    pub base_semitone: u32,
    pub pitch_offset: u32,
    pub pitch_center_offset: u32,
    pub pitch_mod_amount: u32,
    pub pitch_drift_amount: u32,
    pub time_stretch_start: u32,
    pub time_stretch_end: u32,
    pub formant_shift: u32,
    pub harmonic_profile: Seq<u32>,
    pub start_sample: int,
    pub end_sample: int,
}

impl View for NoteSpan {
    type V = NoteModel;

    open spec fn view(&self) -> NoteModel {
        NoteModel {
            start: self.start,
            end: self.end,
            base_semitone: self.base_semitone,
            pitch_offset: self.pitch_offset,
            pitch_center_offset: self.pitch_center_offset,
            pitch_mod_amount: self.pitch_mod_amount,
            pitch_drift_amount: self.pitch_drift_amount,
            time_stretch_start: self.time_stretch_start,
            time_stretch_end: self.time_stretch_end,
            formant_shift: self.formant_shift,
            harmonic_profile: self.harmonic_profile@,
            start_sample: self.start_sample as int,
            end_sample: self.end_sample as int,
        }
    }
}

/// The models of a sequence of note spans.
pub open spec fn models(s: Seq<NoteSpan>) -> Seq<NoteModel> {
    s.map_values(|n: NoteSpan| n@)
}

/// The raw ingestion input: ten parallel parameter sequences, the harmonic
/// count per note, and the flattened per-note harmonic gain table.
#[verifier::ext_equal]
pub struct NoteInput {
    pub starts: Seq<u32>,
    pub ends: Seq<u32>,
    pub bases: Seq<u32>,
    pub offsets: Seq<u32>,
    pub centers: Seq<u32>,
    pub mods: Seq<u32>,
    pub drifts: Seq<u32>,
    pub stretch_s: Seq<u32>,
    pub stretch_e: Seq<u32>,
    pub formants: Seq<u32>,
    pub hp: int,
    pub flat: Seq<u32>,
}

/// The shortest common length of the ten parallel sequences.
pub open spec fn spec_min_len(inp: NoteInput) -> int {
    let a = if inp.starts.len() <= inp.ends.len() {
        inp.starts.len() as int
    } else {
        inp.ends.len() as int
    };
    let b = if inp.bases.len() <= a {
        inp.bases.len() as int
    } else {
        a
    };
    let c = if inp.offsets.len() <= b {
        inp.offsets.len() as int
    } else {
        b
    };
    let d = if inp.centers.len() <= c {
        inp.centers.len() as int
    } else {
        c
    };
    let e = if inp.mods.len() <= d {
        inp.mods.len() as int
    } else {
        d
    };
    let f = if inp.drifts.len() <= e {
        inp.drifts.len() as int
    } else {
        e
    };
    let g = if inp.stretch_s.len() <= f {
        inp.stretch_s.len() as int
    } else {
        f
    };
    let h = if inp.stretch_e.len() <= g {
        inp.stretch_e.len() as int
    } else {
        g
    };
    if inp.formants.len() <= h {
        inp.formants.len() as int
    } else {
        h
    }
}

/// Candidate `k` is kept: every numeric field finite and, after the
/// non-negative clamp of its times, a non-empty span (`start < end`).  A
/// span lying entirely below time zero collapses under the clamp and is
/// dropped, never stored.
pub open spec fn spec_keep(inp: NoteInput, k: int) -> bool {
    &&& is_finite(inp.starts[k])
    &&& is_finite(inp.ends[k])
    &&& is_finite(inp.bases[k])
    &&& is_finite(inp.offsets[k])
    &&& is_finite(inp.centers[k])
    &&& is_finite(inp.mods[k])
    &&& is_finite(inp.drifts[k])
    &&& is_finite(inp.stretch_s[k])
    &&& is_finite(inp.stretch_e[k])
    &&& is_finite(inp.formants[k])
    &&& flt(fmax(inp.starts[k], B_ZERO), fmax(inp.ends[k], B_ZERO))
}

/// A harmonic gain: non-finite values default to unity, the rest clamp
/// into `[0, 4]`.
pub open spec fn spec_clamp_gain(g: u32) -> u32 {
    if !is_finite(g) {
        B_ONE
    } else {
        fmin(fmax(g, B_ZERO), B_FOUR)
    }
}

/// A modulation or drift amount clamped into `[0, 2]`.
pub open spec fn spec_clamp_amount(v: u32) -> u32 {
    fmin(fmax(v, B_ZERO), B_TWO)
}

/// A stretch-ramp multiplier clamped into `[0.5, 2]`.
pub open spec fn spec_clamp_stretch(v: u32) -> u32 {
    fmin(fmax(v, B_HALF), B_TWO)
}

/// The harmonic profile of candidate `k`: its slice of the flattened gain
/// table, clamped gain by gain, or all-unity if the table is too short.
pub open spec fn spec_profile(inp: NoteInput, k: int) -> Seq<u32> {
    if inp.hp <= 0 {
        Seq::empty()
    } else if inp.flat.len() >= (k + 1) * inp.hp {
        Seq::new(inp.hp as nat, |j: int| spec_clamp_gain(inp.flat[k * inp.hp + j]))
    } else {
        Seq::new(inp.hp as nat, |j: int| B_ONE)
    }
}

/// A clamped time bound converted to an absolute sample index at rate `sr`
/// (ceiling, saturating; NaN maps to zero).
pub open spec fn spec_time_to_sample(t: u32, sr: u32) -> int {
    f32_to_u64(f32_ceil(f32_mul(t, sr))) as int
}

/// The validated note built from candidate `k`: times clamped non-negative,
/// amounts and stretches clamped, sample bounds derived from the clamped
/// times (the end bound never below the start bound).
pub open spec fn spec_make_note(inp: NoteInput, k: int, sr: u32) -> NoteModel {
    let start = fmax(inp.starts[k], B_ZERO);
    let end = fmax(inp.ends[k], B_ZERO);
    let ss = spec_time_to_sample(start, sr);
    let es = spec_time_to_sample(end, sr);
    NoteModel {
        start,
        end,
        base_semitone: inp.bases[k],
        pitch_offset: inp.offsets[k],
        pitch_center_offset: inp.centers[k],
        pitch_mod_amount: spec_clamp_amount(inp.mods[k]),
        pitch_drift_amount: spec_clamp_amount(inp.drifts[k]),
        time_stretch_start: spec_clamp_stretch(inp.stretch_s[k]),
        time_stretch_end: spec_clamp_stretch(inp.stretch_e[k]),
        formant_shift: inp.formants[k],
        harmonic_profile: spec_profile(inp, k),
        start_sample: ss,
        end_sample: if es < ss {
            ss
        } else {
            es
        },
    }
}

/// The kept candidates among the first `k`, in input order.
pub open spec fn spec_candidates_upto(inp: NoteInput, sr: u32, k: int) -> Seq<NoteModel>
    decreases k,
{
    if k <= 0 {
        Seq::empty()
    } else if spec_keep(inp, k - 1) {
        spec_candidates_upto(inp, sr, k - 1).push(spec_make_note(inp, k - 1, sr))
    } else {
        spec_candidates_upto(inp, sr, k - 1)
    }
}

/// All kept candidates of the truncated input.
pub open spec fn spec_candidates(inp: NoteInput, sr: u32) -> Seq<NoteModel> {
    spec_candidates_upto(inp, sr, spec_min_len(inp))
}

/// Well-formedness of a validated note: every numeric field finite, the
/// span clamped non-negative with `start < end`, and ordered sample
/// bounds.
pub open spec fn note_wf(n: NoteModel) -> bool {
    &&& is_finite(n.start)
    &&& is_finite(n.end)
    &&& is_finite(n.base_semitone)
    &&& is_finite(n.pitch_offset)
    &&& is_finite(n.pitch_center_offset)
    &&& is_finite(n.pitch_mod_amount)
    &&& is_finite(n.pitch_drift_amount)
    &&& is_finite(n.time_stretch_start)
    &&& is_finite(n.time_stretch_end)
    &&& is_finite(n.formant_shift)
    &&& fle(B_ZERO, n.start)
    &&& flt(n.start, n.end)
    &&& 0 <= n.start_sample <= n.end_sample
}

/// Non-decreasing start times.
pub open spec fn sorted_by_start(s: Seq<NoteModel>) -> bool {
    forall|i: int, j: int| 0 <= i < j < s.len() ==> fle(#[trigger] s[i].start, #[trigger] s[j].start)
}

/// Stable insertion: the note goes in front of the first element whose
/// start is not below its own, so it precedes every equal start already
/// present.
pub open spec fn spec_insert_by_start(s: Seq<NoteModel>, n: NoteModel) -> Seq<NoteModel>
    decreases s.len(),
{
    if s.len() == 0 {
        seq![n]
    } else if flt(s.first().start, n.start) {
        seq![s.first()] + spec_insert_by_start(s.drop_first(), n)
    } else {
        seq![n] + s
    }
}

/// The stable sort by non-decreasing start: notes are inserted in input
/// order, each in front of the first note whose start is not below its
/// own, so notes with equal starts keep their input order.
pub open spec fn spec_sort_by_start(s: Seq<NoteModel>) -> Seq<NoteModel>
    decreases s.len(),
{
    if s.len() == 0 {
        s
    } else {
        spec_insert_by_start(spec_sort_by_start(s.drop_first()), s.first())
    }
}

/// On a sorted sequence with no NaN starts, the stable insertion lands at
/// the position whose prefix holds exactly the starts below the new one.
proof fn lemma_insert_by_start_at(s: Seq<NoteModel>, n: NoteModel, p: int)
    requires
        sorted_by_start(s),
        !is_nan(n.start),
        forall|k: int| 0 <= k < s.len() ==> !is_nan((#[trigger] s[k]).start),
        0 <= p <= s.len(),
        forall|k: int| p <= k < s.len() ==> fle(n.start, (#[trigger] s[k]).start),
        p > 0 ==> flt(s[p - 1].start, n.start),
    ensures
        spec_insert_by_start(s, n) =~= s.insert(p, n),
    decreases s.len(),
{
    s.insert_ensures(p, n);
    if s.len() == 0 {
    } else if p == 0 {
        assert(fle(n.start, s.first().start));
        assert(!flt(s.first().start, n.start));
        assert(spec_insert_by_start(s, n) =~= s.insert(0, n));
    } else {
        if p > 1 {
            assert(fle(s.first().start, s[p - 1].start));
        }
        assert(flt(s.first().start, n.start));
        let t = s.drop_first();
        assert forall|i: int, j: int| 0 <= i < j < t.len() implies fle(
            (#[trigger] t[i]).start,
            (#[trigger] t[j]).start,
        ) by {
            assert(t[i] == s[i + 1]);
            assert(t[j] == s[j + 1]);
        }
        assert forall|k: int| 0 <= k < t.len() implies !is_nan((#[trigger] t[k]).start) by {
            assert(t[k] == s[k + 1]);
        }
        assert forall|k: int| p - 1 <= k < t.len() implies fle(n.start, (#[trigger] t[k]).start) by {
            assert(t[k] == s[k + 1]);
        }
        if p - 1 > 0 {
            assert(t[p - 2] == s[p - 1]);
        }
        lemma_insert_by_start_at(t, n, p - 1);
        t.insert_ensures(p - 1, n);
        assert(spec_insert_by_start(s, n) =~= seq![s.first()] + t.insert(p - 1, n));
        assert(seq![s.first()] + t.insert(p - 1, n) =~= s.insert(p, n));
    }
}

/// Every kept candidate is well formed: dropped spans never reach the
/// timeline, clamping preserves finiteness, and the clamped span is
/// non-empty by the keep condition itself.
pub proof fn lemma_candidates_wf(inp: NoteInput, sr: u32, k: int)
    ensures
        spec_candidates_upto(inp, sr, k).len() <= (if k >= 0 {
            k
        } else {
            0
        }),
        forall|i: int|
            0 <= i < spec_candidates_upto(inp, sr, k).len() ==> note_wf(
                #[trigger] spec_candidates_upto(inp, sr, k)[i]),
    decreases k,
{
    if k > 0 {
        lemma_candidates_wf(inp, sr, k - 1);
        if spec_keep(inp, k - 1) {
            lemma_const_classes();
            let n = spec_make_note(inp, k - 1, sr);
            assert(note_wf(n));
        }
    }
}

fn clamp_gain(g: u32) -> (r: u32)
    ensures
        r == spec_clamp_gain(g),
{
    if !f_is_finite(g) {
        B_ONE
    } else {
        f_min(f_max(g, B_ZERO), B_FOUR)
    }
}

fn time_to_sample(t: u32, sr: u32) -> (r: u64)
    ensures
        r as int == spec_time_to_sample(t, sr),
{
    fx_to_u64(fx_ceil(fx_mul(t, sr)))
}

/// Builds the validated, sorted timeline from the raw parallel arrays.
pub(crate) fn build_notes(
    starts: &Vec<u32>,
    ends: &Vec<u32>,
    bases: &Vec<u32>,
    offsets: &Vec<u32>,
    centers: &Vec<u32>,
    mods: &Vec<u32>,
    drifts: &Vec<u32>,
    stretch_s: &Vec<u32>,
    stretch_e: &Vec<u32>,
    formants: &Vec<u32>,
    hp: u32,
    flat: &Vec<u32>,
    sr: u32,
) -> (out: Vec<NoteSpan>)
    ensures
        ({
            let inp = NoteInput {
                starts: starts@,
                ends: ends@,
                bases: bases@,
                offsets: offsets@,
                centers: centers@,
                mods: mods@,
                drifts: drifts@,
                stretch_s: stretch_s@,
                stretch_e: stretch_e@,
                formants: formants@,
                hp: hp as int,
                flat: flat@,
            };
            let cand = spec_candidates(inp, sr);
            &&& models(out@) == spec_sort_by_start(cand)
            &&& models(out@).to_multiset() == cand.to_multiset()
            &&& out@.len() == cand.len()
            &&& cand.len() <= spec_min_len(inp)
            &&& sorted_by_start(models(out@))
            &&& forall|i: int| 0 <= i < out@.len() ==> note_wf(#[trigger] models(out@)[i])
        }),
{
    let ghost inp = NoteInput {
        starts: starts@,
        ends: ends@,
        bases: bases@,
        offsets: offsets@,
        centers: centers@,
        mods: mods@,
        drifts: drifts@,
        stretch_s: stretch_s@,
        stretch_e: stretch_e@,
        formants: formants@,
        hp: hp as int,
        flat: flat@,
    };
    let mut n = starts.len();
    if ends.len() < n {
        n = ends.len();
    }
    if bases.len() < n {
        n = bases.len();
    }
    if offsets.len() < n {
        n = offsets.len();
    }
    if centers.len() < n {
        n = centers.len();
    }
    if mods.len() < n {
        n = mods.len();
    }
    if drifts.len() < n {
        n = drifts.len();
    }
    if stretch_s.len() < n {
        n = stretch_s.len();
    }
    if stretch_e.len() < n {
        n = stretch_e.len();
    }
    if formants.len() < n {
        n = formants.len();
    }
    proof {
        assert(n as int == spec_min_len(inp));
    }
    let mut raw: Vec<NoteSpan> = Vec::new();
    let mut i: usize = 0;
    while i < n
        invariant
            i <= n,
            n <= starts.len() && n <= ends.len() && n <= bases.len() && n <= offsets.len(),
            n <= centers.len() && n <= mods.len() && n <= drifts.len(),
            n <= stretch_s.len() && n <= stretch_e.len() && n <= formants.len(),
            inp == (NoteInput {
                starts: starts@,
                ends: ends@,
                bases: bases@,
                offsets: offsets@,
                centers: centers@,
                mods: mods@,
                drifts: drifts@,
                stretch_s: stretch_s@,
                stretch_e: stretch_e@,
                formants: formants@,
                hp: hp as int,
                flat: flat@,
            }),
            models(raw@) =~= spec_candidates_upto(inp, sr, i as int),
        decreases n - i,
    {
        let s = starts[i];
        let e = ends[i];
        let base = bases[i];
        let o = offsets[i];
        let pc = centers[i];
        let pm = mods[i];
        let pd = drifts[i];
        let ts = stretch_s[i];
        let te = stretch_e[i];
        let fm = formants[i];
        let ok = f_is_finite(s) && f_is_finite(e) && f_is_finite(base) && f_is_finite(o)
            && f_is_finite(pc) && f_is_finite(pm) && f_is_finite(pd) && f_is_finite(ts)
            && f_is_finite(te) && f_is_finite(fm);
        let start = f_max(s, B_ZERO);
        let end = f_max(e, B_ZERO);
        if ok && f_lt(start, end) {
            let hpu = hp as usize;
            let mut profile: Vec<u32> = Vec::new();
            if hpu > 0 {
                if flat.len() / hpu >= i + 1 {
                    proof {
                        assert(flat@.len() >= (i + 1) * hpu && flat@.len() >= i * hpu + hpu) by (
                            nonlinear_arith)
                            requires
                                flat@.len() as int / (hpu as int) >= i + 1,
                                hpu > 0,
                                0 <= i,
                        ;
                    }
                    let flen = flat.len();
                    let base = i * hpu;
                    let mut j: usize = 0;
                    while j < hpu
                        invariant
                            j <= hpu,
                            hpu > 0,
                            base == i * hpu,
                            flen == flat@.len(),
                            flen >= base + hpu,
                            profile@.len() == j,
                            forall|t: int|
                                0 <= t < j ==> profile@[t] == spec_clamp_gain(
                                    flat@[base + t]),
                        decreases hpu - j,
                    {
                        let g = flat[base + j];
                        profile.push(clamp_gain(g));
                        j += 1;
                    }
                } else {
                    proof {
                        assert(!(flat@.len() >= (i + 1) * hpu)) by (nonlinear_arith)
                            requires
                                flat@.len() as int / (hpu as int) < i + 1,
                                hpu > 0,
                                0 <= i,
                        ;
                    }
                    let mut j: usize = 0;
                    while j < hpu
                        invariant
                            j <= hpu,
                            profile@.len() == j,
                            forall|t: int| 0 <= t < j ==> profile@[t] == B_ONE,
                        decreases hpu - j,
                    {
                        profile.push(B_ONE);
                        j += 1;
                    }
                }
            }
            proof {
                assert(profile@ =~= spec_profile(inp, i as int));
            }
            let ss = time_to_sample(start, sr);
            let es = time_to_sample(end, sr);
            let note = NoteSpan {
                start,
                end,
                base_semitone: base,
                pitch_offset: o,
                pitch_center_offset: pc,
                pitch_mod_amount: f_min(f_max(pm, B_ZERO), B_TWO),
                pitch_drift_amount: f_min(f_max(pd, B_ZERO), B_TWO),
                time_stretch_start: f_min(f_max(ts, B_HALF), B_TWO),
                time_stretch_end: f_min(f_max(te, B_HALF), B_TWO),
                formant_shift: fm,
                harmonic_profile: profile,
                start_sample: ss,
                end_sample: if es < ss {
                    ss
                } else {
                    es
                },
            };
            raw.push(note);
            proof {
                assert(note@ =~= spec_make_note(inp, i as int, sr));
                assert(models(raw@) =~= spec_candidates_upto(inp, sr, i + 1));
            }
        } else {
            proof {
                assert(!spec_keep(inp, i as int));
                assert(models(raw@) =~= spec_candidates_upto(inp, sr, i + 1));
            }
        }
        i += 1;
    }
    proof {
        lemma_candidates_wf(inp, sr, spec_min_len(inp));
    }
    let ghost unsorted = raw@;
    sort_notes(&mut raw);
    proof {
        broadcast use vstd::seq_lib::group_to_multiset_ensures;

        let cand = spec_candidates(inp, sr);
        assert(models(unsorted) == cand);
        assert(models(raw@) == spec_sort_by_start(cand));
        assert forall|i: int| 0 <= i < raw@.len() implies note_wf(#[trigger] models(raw@)[i]) by {
            let x = models(raw@)[i];
            assert(models(raw@).contains(x));
            assert(cand.to_multiset().count(x) > 0);
            assert(cand.contains(x));
            let j = choose|j: int| 0 <= j < cand.len() && cand[j] == x;
            assert(note_wf(cand[j]));
        }
    }
    raw
}

/// Stable insertion of each span into an output kept ordered by
/// non-decreasing start time: the result is exactly `spec_sort_by_start`
/// of the input (equal starts keep their input order), and the contents
/// are preserved as a multiset.
fn sort_notes(v: &mut Vec<NoteSpan>)
    requires
        forall|k: int| 0 <= k < old(v)@.len() ==> !is_nan(#[trigger] models(old(v)@)[k].start),
    ensures
        final(v)@.len() == old(v)@.len(),
        models(final(v)@).to_multiset() == models(old(v)@).to_multiset(),
        sorted_by_start(models(final(v)@)),
        models(final(v)@) == spec_sort_by_start(models(old(v)@)),
{
    let ghost orig = v@;
    let mut out: Vec<NoteSpan> = Vec::new();
    proof {
        broadcast use vstd::seq_lib::group_to_multiset_ensures;

        assert(v@ =~= orig.subrange(0, v@.len() as int));
        assert(models(orig).subrange(orig.len() as int, orig.len() as int) =~= Seq::<
            NoteModel>::empty());
        assert(models(out@) =~= Seq::<NoteModel>::empty());
    }
    while v.len() > 0
        invariant
            forall|k: int| 0 <= k < orig.len() ==> !is_nan(#[trigger] models(orig)[k].start),
            v@ =~= orig.subrange(0, v@.len() as int),
            forall|k: int| 0 <= k < out@.len() ==> !is_nan(#[trigger] models(out@)[k].start),
            sorted_by_start(models(out@)),
            models(out@).to_multiset().add(models(v@).to_multiset()) =~= models(orig).to_multiset(),
            out@.len() + v@.len() == orig.len(),
            models(out@) == spec_sort_by_start(
                models(orig).subrange(v@.len() as int, orig.len() as int),
            ),
        decreases v@.len(),
    {
        let ghost v_before = v@;
        let x = v.pop().unwrap();
        proof {
            assert(x@ == models(orig)[v_before.len() - 1]);
            assert(v@ =~= orig.subrange(0, v@.len() as int));
        }
        let mut p = out.len();
        while p > 0 && f_le(x.start, out[p - 1].start)
            invariant
                p <= out@.len(),
                forall|k: int|
                    p <= k < out@.len() ==> fle(x@.start, (#[trigger] models(out@)[k]).start),
            decreases p,
        {
            p -= 1;
        }
        let ghost out_before = out@;
        out.insert(p, x);
        proof {
            broadcast use vstd::seq_lib::group_to_multiset_ensures;

            assert(models(v_before).drop_last() =~= models(v_before).remove(
                v_before.len() - 1));
            assert(models(v@) =~= models(v_before).drop_last());
            assert(models(out@) =~= models(out_before).insert(p as int, x@));
            vstd::seq_lib::to_multiset_insert(models(out_before), p as int, x@);
            assert(models(out@).to_multiset().add(models(v@).to_multiset()) =~= models(
                orig).to_multiset());
            let so = models(out_before);
            let sn = models(out@);
            so.insert_ensures(p as int, x@);
            assert(sn =~= so.insert(p as int, x@));
            assert forall|i: int, j: int| 0 <= i < j < sn.len() implies fle(
                #[trigger] sn[i].start,
                #[trigger] sn[j].start,
            ) by {
                if i < p {
                    assert(sn[i] == so[i]);
                }
                if j < p {
                    assert(sn[j] == so[j]);
                }
                if i > p {
                    assert(sn[i] == so[i - 1]);
                }
                if j > p {
                    assert(sn[j] == so[j - 1]);
                }
                if j == p {
                    // everything before the insertion point lies strictly
                    // below x
                    assert(p > 0 && !fle(x@.start, so[p - 1].start));
                    assert(flt(so[p - 1].start, x@.start));
                    if i < p - 1 {
                        assert(fle(so[i].start, so[p - 1].start));
                    }
                } else if i == p {
                    // everything from the insertion point on is at least x
                    assert(fle(x@.start, so[j - 1].start));
                }
            }
            // the insertion is the stable one of the definitional sort
            lemma_insert_by_start_at(so, x@, p as int);
            assert(sn == spec_insert_by_start(so, x@));
            let suf_old = models(orig).subrange(v_before.len() as int, orig.len() as int);
            let suf_new = models(orig).subrange(v_before.len() - 1, orig.len() as int);
            assert(suf_new.first() == x@);
            assert(suf_new.drop_first() =~= suf_old);
            assert(spec_sort_by_start(suf_new) == spec_insert_by_start(
                spec_sort_by_start(suf_old),
                suf_new.first(),
            ));
            assert(models(out@) == spec_sort_by_start(suf_new));
        }
    }
    proof {
        assert(models(orig).subrange(0, orig.len() as int) =~= models(orig));
    }
    *v = out;
}

} // verus!
