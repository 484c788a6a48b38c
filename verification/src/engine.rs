//! The engine: note timeline, block scheduler and automation.
//!
//! `process_buffer` walks the buffer in sub-blocks aligned to a fixed
//! 128-sample grid on the absolute sample axis (the engine carries its
//! stream position across calls), tracks which note is active, computes one
//! pitch offset per sub-block from the note's automation parameters, hands
//! the sub-block to the delay-line shifter and, inside a note, to the
//! harmonic/formant shaper.  Because sub-block boundaries, the active-note
//! scan and the offset all depend only on the absolute position and the
//! timeline - never on where a buffer happens to start or end - processing
//! a stream in one call or in any split into consecutive calls yields the
//! same samples and the same final state.

use vstd::prelude::*;
use crate::fbits::{
    flt, fmax, fmin, lemma_const_classes, f_is_finite, f_le, f_lt, f_max, f_min, B_0_03, B_0_2,
    B_0_45, B_1E_6, B_FOUR, B_HALF, B_ONE, B_QUARTER, B_TWO, B_TWO_PI_5_5, B_ZERO,
};
use crate::fmath::{fx_sin, spec_sin};
use crate::fx::{
    f32_add, f32_div, f32_from_u64, f32_mul, f32_sub, fx_add, fx_div, fx_from_u64, fx_mul, fx_sub,
};
use crate::notes::{
    build_notes, models, note_wf, sorted_by_start, spec_candidates, spec_clamp_gain, spec_min_len,
    spec_sort_by_start, NoteInput, NoteModel, NoteSpan,
};
use crate::shifter::{
    shifter_wf, spec_delay_len, spec_process_block, MelodyShifter, ShifterModel,
};
use crate::timbre::{
    apply_harmonic_and_formant, spec_sr_valid, spec_timbre_apply, Biquad, HarmonicEQ, TimbreModel,
};

verus! {

/// Mathematical state of an engine.
#[verifier::ext_equal]
pub struct EngineModel {
    pub sr: u32,
    pub notes: Seq<NoteModel>,
    pub shifter: ShifterModel,
    pub geq: Seq<u32>,
    pub t_active: Option<int>,
    pub timbre: TimbreModel,
    pub pos: int,
}

/// Well-formed engine state: a well-formed shifter, ordered sample bounds
/// on every note, and a non-negative stream position.
pub open spec fn engine_wf(ev: EngineModel) -> bool {
    &&& shifter_wf(ev.shifter)
    &&& forall|i: int|
        0 <= i < ev.notes.len() ==> 0 <= (#[trigger] ev.notes[i]).start_sample
            <= ev.notes[i].end_sample
    &&& 0 <= ev.pos
}

/// The forward-only note scan from index `k`: the first note at or after
/// `k` whose end lies beyond sample `p` (the timeline's length if none).
pub open spec fn spec_scan(notes: Seq<NoteModel>, k: int, p: int) -> int
    decreases notes.len() - k,
{
    if k < 0 || k >= notes.len() {
        notes.len() as int
    } else if notes[k].end_sample <= p {
        spec_scan(notes, k + 1, p)
    } else {
        k
    }
}

/// One scheduling decision: the active note (if any), the absolute sample
/// at which this pass ends, and the pitch offset held over the pass.
pub struct SegInfo {
    pub idx: Option<int>,
    pub end: int,
    pub offset: u32,
}

/// The pitch offset for the sub-block window `[s, w)` of a note: base
/// offset plus vibrato plus drift, faded by the attack/release envelope,
/// all evaluated at the window's midpoint time.
pub open spec fn spec_offset(n: NoteModel, s: int, w: int, sr: u32) -> u32 {
    let mid = f32_add(f32_from_u64(s as u64), f32_mul(f32_from_u64((w - s) as u64), B_HALF));
    let t_mid = f32_div(mid, sr);
    let dur = fmax(f32_sub(n.end, n.start), B_1E_6);
    let u0 = f32_div(f32_sub(t_mid, n.start), dur);
    let u1 = if flt(u0, B_ZERO) {
        B_ZERO
    } else {
        u0
    };
    let u = if flt(B_ONE, u1) {
        B_ONE
    } else {
        u1
    };
    let center = f32_add(n.pitch_offset, n.pitch_center_offset);
    let mod_part = f32_mul(
        spec_sin(f32_mul(B_TWO_PI_5_5, f32_sub(t_mid, n.start))),
        f32_mul(B_QUARTER, n.pitch_mod_amount),
    );
    let drift_part = f32_mul(
        f32_mul(f32_sub(u, B_HALF), B_TWO),
        f32_mul(B_0_2, n.pitch_drift_amount),
    );
    let ramp_s = fmax(fmin(f32_mul(B_0_03, n.time_stretch_start), f32_mul(dur, B_0_45)), B_ZERO);
    let ramp_e = fmax(fmin(f32_mul(B_0_03, n.time_stretch_end), f32_mul(dur, B_0_45)), B_ZERO);
    let env1 = if flt(B_ZERO, ramp_s) {
        let a = f32_div(f32_sub(t_mid, n.start), ramp_s);
        fmin(B_ONE, fmin(fmax(a, B_ZERO), B_ONE))
    } else {
        B_ONE
    };
    let env = if flt(B_ZERO, ramp_e) {
        let b = f32_div(f32_sub(n.end, t_mid), ramp_e);
        fmin(env1, fmin(fmax(b, B_ZERO), B_ONE))
    } else {
        env1
    };
    f32_mul(f32_add(f32_add(center, mod_part), drift_part), env)
}

/// The scheduling decision at absolute sample `p`: scan for the first
/// unfinished note; inside it the pass runs to the end of the aligned
/// 128-sample block or of the note, with the note's offset; before it the
/// pass bypasses until the block end or the note start; past the timeline
/// the pass bypasses block by block.
pub open spec fn spec_seg(notes: Seq<NoteModel>, sr: u32, p: int) -> SegInfo {
    let i = spec_scan(notes, 0, p);
    let blk_end = (p / 128 + 1) * 128;
    if i >= notes.len() {
        SegInfo { idx: None, end: blk_end, offset: B_ZERO }
    } else {
        let n = notes[i];
        if p >= n.start_sample {
            let blk_start = (p / 128) * 128;
            let seg_start = if blk_start >= n.start_sample {
                blk_start
            } else {
                n.start_sample
            };
            let e0 = if blk_end <= n.end_sample {
                blk_end
            } else {
                n.end_sample
            };
            SegInfo { idx: Some(i), end: e0, offset: spec_offset(n, seg_start, blk_end, sr) }
        } else {
            let e0 = if blk_end <= n.start_sample {
                blk_end
            } else {
                n.start_sample
            };
            SegInfo { idx: None, end: e0, offset: B_ZERO }
        }
    }
}

/// The timbre state carried into a pass: reset when the active note index
/// differs from the one the state was built for.
pub open spec fn spec_timbre_in(ev: EngineModel, i: int) -> TimbreModel {
    if ev.t_active == Some(i) {
        ev.timbre
    } else {
        TimbreModel { filters: Seq::empty(), lp: B_ZERO, last_f0: B_ZERO }
    }
}

/// Whole-buffer processing: a no-op on an empty buffer, an empty timeline
/// or an unusable sample rate; otherwise one scheduled pass at a time, each
/// pitch-shifting its samples in place and, inside a note, shaping them,
/// until the buffer is consumed.  The stream position advances by the
/// number of samples processed.
pub open spec fn spec_engine_process(ev: EngineModel, xs: Seq<u32>) -> (EngineModel, Seq<u32>)
    decreases xs.len(),
{
    if xs.len() == 0 {
        (ev, xs)
    } else if ev.notes.len() == 0 || !spec_sr_valid(ev.sr) {
        (ev, xs)
    } else {
        let p = ev.pos;
        let seg = spec_seg(ev.notes, ev.sr, p);
        let e1 = if seg.end >= p + 1 {
            seg.end
        } else {
            p + 1
        };
        let len = e1 - p;
        let take = if len <= xs.len() {
            len
        } else {
            xs.len() as int
        };
        let chunk = xs.subrange(0, take);
        let sres = spec_process_block(ev.shifter, chunk, seg.offset);
        let step = match seg.idx {
            Some(i) => {
                let tr = spec_timbre_apply(spec_timbre_in(ev, i), sres.1, ev.notes[i], ev.sr,
                    ev.geq);
                (tr.0, tr.1, Some(i))
            },
            None => (ev.timbre, sres.1, ev.t_active),
        };
        let ev1 = EngineModel {
            shifter: sres.0,
            timbre: step.0,
            t_active: step.2,
            pos: p + take,
            ..ev
        };
        let rec = spec_engine_process(ev1, xs.subrange(take, xs.len() as int));
        (rec.0, step.1 + rec.1)
    }
}

/// Scanning from an index whose every predecessor has already ended equals
/// scanning from the front.
pub proof fn lemma_scan_shift(notes: Seq<NoteModel>, m: int, k: int, p: int)
    requires
        0 <= m <= k <= notes.len(),
        forall|j: int| 0 <= j < k ==> (#[trigger] notes[j]).end_sample <= p,
    ensures
        spec_scan(notes, m, p) == spec_scan(notes, k, p),
    decreases k - m,
{
    if m < k {
        lemma_scan_shift(notes, m + 1, k, p);
    }
}

/// The scan's defining properties: it lands on the first unfinished note.
pub proof fn lemma_scan_bounds(notes: Seq<NoteModel>, k: int, p: int)
    requires
        0 <= k <= notes.len(),
    ensures
        k <= spec_scan(notes, k, p) <= notes.len(),
        forall|j: int|
            k <= j < spec_scan(notes, k, p) ==> (#[trigger] notes[j]).end_sample <= p,
        spec_scan(notes, k, p) < notes.len() ==> notes[spec_scan(notes, k, p)].end_sample > p,
    decreases notes.len() - k,
{
    if k < notes.len() && notes[k].end_sample <= p {
        lemma_scan_bounds(notes, k + 1, p);
    }
}

fn compute_offset(note: &NoteSpan, seg_start: u64, w_end: u64, sr: u32) -> (r: u32)
    requires
        seg_start <= w_end,
    ensures
        r == spec_offset(note@, seg_start as int, w_end as int, sr),
{
    let mid = fx_add(fx_from_u64(seg_start), fx_mul(fx_from_u64(w_end - seg_start), B_HALF));
    let t_mid = fx_div(mid, sr);
    let dur = f_max(fx_sub(note.end, note.start), B_1E_6);
    let u0 = fx_div(fx_sub(t_mid, note.start), dur);
    let u1 = if f_lt(u0, B_ZERO) {
        B_ZERO
    } else {
        u0
    };
    let u = if f_lt(B_ONE, u1) {
        B_ONE
    } else {
        u1
    };
    let center = fx_add(note.pitch_offset, note.pitch_center_offset);
    let mod_part = fx_mul(
        fx_sin(fx_mul(B_TWO_PI_5_5, fx_sub(t_mid, note.start))),
        fx_mul(B_QUARTER, note.pitch_mod_amount),
    );
    let drift_part = fx_mul(
        fx_mul(fx_sub(u, B_HALF), B_TWO),
        fx_mul(B_0_2, note.pitch_drift_amount),
    );
    let ramp_s = f_max(f_min(fx_mul(B_0_03, note.time_stretch_start), fx_mul(dur, B_0_45)),
        B_ZERO);
    let ramp_e = f_max(f_min(fx_mul(B_0_03, note.time_stretch_end), fx_mul(dur, B_0_45)), B_ZERO);
    let env1 = if f_lt(B_ZERO, ramp_s) {
        let a = fx_div(fx_sub(t_mid, note.start), ramp_s);
        f_min(B_ONE, f_min(f_max(a, B_ZERO), B_ONE))
    } else {
        B_ONE
    };
    let env = if f_lt(B_ZERO, ramp_e) {
        let b = fx_div(fx_sub(note.end, t_mid), ramp_e);
        f_min(env1, f_min(f_max(b, B_ZERO), B_ONE))
    } else {
        env1
    };
    fx_mul(fx_add(fx_add(center, mod_part), drift_part), env)
}

/// Ordered sample bounds on every note of a timeline.
pub open spec fn notes_bounds_ok(notes: Seq<NoteModel>) -> bool {
    forall|i: int|
        0 <= i < notes.len() ==> 0 <= (#[trigger] notes[i]).start_sample <= notes[i].end_sample
}

/// Every scheduled pass covers at least one sample: the pass boundary lies
/// strictly beyond the current position.
pub proof fn lemma_seg_progress(notes: Seq<NoteModel>, sr: u32, p: int)
    requires
        notes_bounds_ok(notes),
        0 <= p,
    ensures
        spec_seg(notes, sr, p).end > p,
        spec_seg(notes, sr, p).end <= (p / 128 + 1) * 128,
{
    lemma_scan_bounds(notes, 0, p);
    assert(p == 128 * (p / 128) + p % 128);
    assert((p / 128 + 1) * 128 == 128 * (p / 128) + 128) by (nonlinear_arith);
}

/// Scheduling is locally constant: every position strictly inside a pass
/// sees the same active note, the same boundary and the same offset as the
/// position the pass started from.
pub proof fn lemma_seg_stable(notes: Seq<NoteModel>, sr: u32, p: int, q: int)
    requires
        notes_bounds_ok(notes),
        0 <= p <= q,
        q < spec_seg(notes, sr, p).end,
    ensures
        spec_seg(notes, sr, q) == spec_seg(notes, sr, p),
{
    lemma_seg_progress(notes, sr, p);
    lemma_scan_bounds(notes, 0, p);
    let ip = spec_scan(notes, 0, p);
    let segp = spec_seg(notes, sr, p);
    assert(q / 128 == p / 128) by (nonlinear_arith)
        requires
            0 <= p <= q,
            q < (p / 128 + 1) * 128,
    ;
    lemma_scan_shift(notes, 0, ip, q);
    if ip < notes.len() {
        assert(notes[ip].end_sample > q);
        assert(spec_scan(notes, ip, q) == ip);
    } else {
        assert(spec_scan(notes, ip, q) == notes.len() as int);
    }
    assert(spec_seg(notes, sr, q).idx == segp.idx && spec_seg(notes, sr, q).end == segp.end
        && spec_seg(notes, sr, q).offset == segp.offset);
}

/// Overlap behaviour (recorded; spans that overlap are undefined by
/// design and this pins down, without endorsing, what the forward-only
/// scan does): while an earlier note of the timeline is unfinished, no
/// later note is ever the active one, so the earliest note in cursor
/// order wins throughout an overlap and a later overlapping note can
/// become active only once the earlier note's end has passed.
pub proof fn lemma_overlap_priority(notes: Seq<NoteModel>, sr: u32, p: int, i: int, j: int)
    requires
        0 <= i < j < notes.len(),
        notes[i].end_sample > p,
    ensures
        spec_seg(notes, sr, p).idx != Some(j),
{
    lemma_scan_bounds(notes, 0, p);
    if spec_scan(notes, 0, p) > i {
        assert(notes[i].end_sample <= p);
    }
}

/// Overlap behaviour (recorded): a nested note - one that starts after an
/// earlier note and ends no later than it - is never activated at any
/// position: before its end the outer note is still unfinished and wins,
/// and afterwards the scan has already passed it.
pub proof fn lemma_nested_note_never_active(notes: Seq<NoteModel>, sr: u32, p: int, i: int, j: int)
    requires
        0 <= i < j < notes.len(),
        notes[j].end_sample <= notes[i].end_sample,
    ensures
        spec_seg(notes, sr, p).idx != Some(j),
{
    if notes[i].end_sample > p {
        lemma_overlap_priority(notes, sr, p, i, j);
    } else {
        lemma_scan_bounds(notes, 0, p);
        if spec_seg(notes, sr, p).idx == Some(j) {
            assert(spec_scan(notes, 0, p) == j);
            assert(notes[j].end_sample > p);
        }
    }
}

/// Processing never touches the timeline, the rate or the gain table,
/// keeps the engine well formed, yields one output sample per input, and
/// advances the position by the buffer length (or is the identity in the
/// no-op cases).
pub proof fn lemma_process_frame(ev: EngineModel, xs: Seq<u32>)
    requires
        engine_wf(ev),
    ensures
        ({
            let r = spec_engine_process(ev, xs);
            &&& r.0.notes == ev.notes
            &&& r.0.sr == ev.sr
            &&& r.0.geq == ev.geq
            &&& engine_wf(r.0)
            &&& r.1.len() == xs.len()
            &&& ((xs.len() > 0 && ev.notes.len() > 0 && spec_sr_valid(ev.sr)) ==> r.0.pos == ev.pos
                + xs.len())
            &&& (!(xs.len() > 0 && ev.notes.len() > 0 && spec_sr_valid(ev.sr)) ==> r.0 == ev)
        }),
    decreases xs.len(),
{
    if xs.len() > 0 && ev.notes.len() > 0 && spec_sr_valid(ev.sr) {
        let p = ev.pos;
        let seg = spec_seg(ev.notes, ev.sr, p);
        let e1 = if seg.end >= p + 1 {
            seg.end
        } else {
            p + 1
        };
        let len = e1 - p;
        let take = if len <= xs.len() {
            len
        } else {
            xs.len() as int
        };
        let chunk = xs.subrange(0, take);
        let sres = spec_process_block(ev.shifter, chunk, seg.offset);
        crate::shifter::lemma_process_block_len(ev.shifter, chunk, seg.offset);
        let step: (TimbreModel, Seq<u32>, Option<int>) = match seg.idx {
            Some(i) => {
                let tr = spec_timbre_apply(spec_timbre_in(ev, i), sres.1, ev.notes[i], ev.sr,
                    ev.geq);
                crate::timbre::lemma_timbre_apply_len(spec_timbre_in(ev, i), sres.1, ev.notes[i],
                    ev.sr, ev.geq);
                (tr.0, tr.1, Some(i))
            },
            None => (ev.timbre, sres.1, ev.t_active),
        };
        let ev1 = EngineModel {
            shifter: sres.0,
            timbre: step.0,
            t_active: step.2,
            pos: p + take,
            ..ev
        };
        assert(engine_wf(ev1));
        lemma_process_frame(ev1, xs.subrange(take, xs.len() as int));
    }
}

#[verifier::rlimit(100)]
proof fn lemma_chunk_cross(ev: EngineModel, a: Seq<u32>, b: Seq<u32>)
    requires
        engine_wf(ev),
        ev.notes.len() > 0,
        spec_sr_valid(ev.sr),
        a.len() >= 1,
        b.len() >= 1,
        ev.pos + a.len() < spec_seg(ev.notes, ev.sr, ev.pos).end,
    ensures
        ({
            let r1 = spec_engine_process(ev, a);
            let r2 = spec_engine_process(r1.0, b);
            let rc = spec_engine_process(ev, a + b);
            rc.0 == r2.0 && rc.1 == r1.1 + r2.1
        }),
{
    let r1 = spec_engine_process(ev, a);
    let r2 = spec_engine_process(r1.0, b);
    let rc = spec_engine_process(ev, a + b);
    let p = ev.pos;
    let seg = spec_seg(ev.notes, ev.sr, p);
    lemma_seg_progress(ev.notes, ev.sr, p);
    let e1 = if seg.end >= p + 1 {
        seg.end
    } else {
        p + 1
    };
    assert(e1 == seg.end);
    let k = if seg.end - p - a.len() <= b.len() {
        seg.end - p - a.len()
    } else {
        b.len() as int
    };
    let d1 = b.subrange(0, k);
    let take_c = a.len() + k;
    assert(take_c == (if e1 - p <= (a + b).len() {
        e1 - p
    } else {
        (a + b).len() as int
    }));
    let chunk_c = (a + b).subrange(0, take_c);
    assert(chunk_c =~= a + d1);
    // the shifter fold composes over the concatenated chunk
    let sres_c = spec_process_block(ev.shifter, chunk_c, seg.offset);
    let sres_a = spec_process_block(ev.shifter, a, seg.offset);
    crate::shifter::lemma_process_block_len(ev.shifter, a, seg.offset);
    let sres_d = spec_process_block(sres_a.0, d1, seg.offset);
    crate::shifter::lemma_process_block_len(sres_a.0, d1, seg.offset);
    let ratio = crate::shifter::spec_ratio(seg.offset);
    let byp = crate::shifter::spec_bypass(seg.offset, ratio);
    crate::shifter::lemma_shift_samples_append(ev.shifter, a, d1, byp, ratio);
    assert(sres_c.0 == sres_d.0 && sres_c.1 =~= sres_a.1 + sres_d.1);
    // the second run resumes strictly inside the same pass
    assert(0 <= p + a.len() && p + a.len() < seg.end);
    lemma_seg_stable(ev.notes, ev.sr, p, p + a.len());
    let step_c: (TimbreModel, Seq<u32>, Option<int>) = match seg.idx {
        Some(i) => {
            let tr = spec_timbre_apply(spec_timbre_in(ev, i), sres_c.1, ev.notes[i],
                ev.sr, ev.geq);
            (tr.0, tr.1, Some(i))
        },
        None => (ev.timbre, sres_c.1, ev.t_active),
    };
    let step_a: (TimbreModel, Seq<u32>, Option<int>) = match seg.idx {
        Some(i) => {
            let tr = spec_timbre_apply(spec_timbre_in(ev, i), sres_a.1, ev.notes[i],
                ev.sr, ev.geq);
            (tr.0, tr.1, Some(i))
        },
        None => (ev.timbre, sres_a.1, ev.t_active),
    };
    let ev1_a = EngineModel {
        shifter: sres_a.0,
        timbre: step_a.0,
        t_active: step_a.2,
        pos: p + a.len(),
        ..ev
    };
    assert(a.subrange(0, a.len() as int) =~= a);
    assert(spec_process_block(ev.shifter, a.subrange(0, a.len() as int), seg.offset) == sres_a);
    assert(a.subrange(a.len() as int, a.len() as int) =~= Seq::<u32>::empty());
    let empty_rest = a.subrange(a.len() as int, a.len() as int);
    assert(spec_engine_process(ev1_a, empty_rest).0 == ev1_a);
    assert(spec_engine_process(ev1_a, empty_rest).1 =~= Seq::<u32>::empty());
    match seg.idx {
        Some(i) => {
            assert(r1.0 =~~= ev1_a);
            assert(r1.1 =~= step_a.1);
        },
        None => {
            assert(r1.0 =~~= ev1_a);
            assert(r1.1 =~= step_a.1);
        },
    }
    assert(r1.0 == ev1_a && r1.1 == step_a.1);
    let step_d: (TimbreModel, Seq<u32>, Option<int>) = match seg.idx {
        Some(i) => {
            let tr = spec_timbre_apply(spec_timbre_in(ev1_a, i), sres_d.1,
                ev.notes[i], ev.sr, ev.geq);
            (tr.0, tr.1, Some(i))
        },
        None => (ev1_a.timbre, sres_d.1, ev1_a.t_active),
    };
    match seg.idx {
        Some(i) => {
            assert(spec_timbre_in(ev1_a, i) == step_a.0);
            crate::timbre::lemma_timbre_apply_append(spec_timbre_in(ev, i), sres_a.1,
                sres_d.1, ev.notes[i], ev.sr, ev.geq);
            assert(step_c.0 =~= step_d.0);
            assert(step_c.1 =~= step_a.1 + step_d.1);
        },
        None => {
            assert(step_c.1 =~= step_a.1 + step_d.1);
        },
    }
    let ev1_c = EngineModel {
        shifter: sres_c.0,
        timbre: step_c.0,
        t_active: step_c.2,
        pos: p + take_c,
        ..ev
    };
    let ev1_d = EngineModel {
        shifter: sres_d.0,
        timbre: step_d.0,
        t_active: step_d.2,
        pos: (p + a.len()) + k,
        ..ev1_a
    };
    assert(ev1_c =~~= ev1_d);
    let b_rest = b.subrange(k, b.len() as int);
    assert((a + b).subrange(take_c, (a + b).len() as int) =~= b_rest);
    let rec = spec_engine_process(ev1_c, b_rest);
    assert(rc.0 == rec.0 && rc.1 == step_c.1 + rec.1);
    assert(r2.0 == rec.0 && r2.1 == step_d.1 + rec.1);
    assert(step_c.1 + rec.1 =~= step_a.1 + (step_d.1 + rec.1));
}

/// Chunk invariance: feeding a stream through `process_buffer` in two
/// consecutive calls produces exactly the samples and the final state that
/// one call on the concatenated buffer produces, for every split point.
/// Pass boundaries, the active-note scan and the per-pass offset depend
/// only on the absolute position and the timeline, the per-sample stages
/// compose over concatenation, and the filter-bank rebuild check is
/// idempotent within a note, so a buffer boundary can never be heard.
pub proof fn lemma_chunked_processing(ev: EngineModel, a: Seq<u32>, b: Seq<u32>)
    requires
        engine_wf(ev),
    ensures
        ({
            let r1 = spec_engine_process(ev, a);
            let r2 = spec_engine_process(r1.0, b);
            let rc = spec_engine_process(ev, a + b);
            rc.0 == r2.0 && rc.1 == r1.1 + r2.1
        }),
    decreases a.len(),
{
    let r1 = spec_engine_process(ev, a);
    let r2 = spec_engine_process(r1.0, b);
    let rc = spec_engine_process(ev, a + b);
    if a.len() == 0 {
        assert(a + b =~= b);
        assert(r1.1 + r2.1 =~= r2.1);
    } else if ev.notes.len() == 0 || !spec_sr_valid(ev.sr) {
        assert(r1.0 == ev && r1.1 == a);
        assert(rc.1 =~= r1.1 + r2.1);
    } else {
        let p = ev.pos;
        let seg = spec_seg(ev.notes, ev.sr, p);
        lemma_seg_progress(ev.notes, ev.sr, p);
        let e1 = if seg.end >= p + 1 {
            seg.end
        } else {
            p + 1
        };
        assert(e1 == seg.end);
        let lseg = seg.end - p;
        if lseg <= a.len() {
            // the first pass is the same for both runs; recurse on the rest
            let take = lseg;
            let chunk = a.subrange(0, take);
            assert((a + b).subrange(0, take) =~= chunk);
            let sres = spec_process_block(ev.shifter, chunk, seg.offset);
            crate::shifter::lemma_process_block_len(ev.shifter, chunk, seg.offset);
            let step: (TimbreModel, Seq<u32>, Option<int>) = match seg.idx {
                Some(i) => {
                    let tr = spec_timbre_apply(spec_timbre_in(ev, i), sres.1, ev.notes[i], ev.sr,
                        ev.geq);
                    (tr.0, tr.1, Some(i))
                },
                None => (ev.timbre, sres.1, ev.t_active),
            };
            let ev1 = EngineModel {
                shifter: sres.0,
                timbre: step.0,
                t_active: step.2,
                pos: p + take,
                ..ev
            };
            assert(engine_wf(ev1));
            let a_rest = a.subrange(take, a.len() as int);
            assert((a + b).subrange(take, (a + b).len() as int) =~= a_rest + b);
            lemma_chunked_processing(ev1, a_rest, b);
            let q1 = spec_engine_process(ev1, a_rest);
            let q2 = spec_engine_process(q1.0, b);
            assert(r1.0 == q1.0 && r1.1 == step.1 + q1.1);
            assert(rc.0 == q2.0 && rc.1 == step.1 + (q1.1 + q2.1));
            assert(step.1 + (q1.1 + q2.1) =~= (step.1 + q1.1) + q2.1);
        } else {
            // the first pass of the combined run crosses the split point
            if b.len() == 0 {
                assert(a + b =~= a);
                assert(r1.1 + r2.1 =~= r1.1);
            } else {
                lemma_chunk_cross(ev, a, b);
            }
        }
    }
}

fn decide_seg(notes: &Vec<NoteSpan>, note_idx: usize, p: u64, sr: u32) -> (r: (u32, u64, Option<
    usize>))
    requires
        note_idx <= notes@.len(),
        note_idx as int == spec_scan(models(notes@), 0, p as int),
        p + 256 < u64::MAX,
    ensures
        ({
            let seg = spec_seg(models(notes@), sr, p as int);
            &&& r.0 == seg.offset
            &&& r.1 as int == seg.end
            &&& (match r.2 {
                Some(u) => seg.idx == Some(u as int),
                None => seg.idx is None,
            })
        }),
{
    let blk_end: u64 = (p / 128 + 1) * 128;
    proof {
        assert(p / 128 * 128 <= p < (p / 128 + 1) * 128);
    }
    if note_idx < notes.len() {
        let note = &notes[note_idx];
        if p >= note.start_sample {
            let blk_start = (p / 128) * 128;
            let seg_start = if blk_start >= note.start_sample {
                blk_start
            } else {
                note.start_sample
            };
            let offset = compute_offset(note, seg_start, blk_end, sr);
            let seg_end = if blk_end <= note.end_sample {
                blk_end
            } else {
                note.end_sample
            };
            (offset, seg_end, Some(note_idx))
        } else {
            let seg_end = if blk_end <= note.start_sample {
                blk_end
            } else {
                note.start_sample
            };
            (B_ZERO, seg_end, None)
        }
    } else {
        (B_ZERO, blk_end, None)
    }
}

/// The pitch-correction engine: the note timeline, the delay-line shifter,
/// the global harmonic gain table, the per-note timbre state and the
/// absolute stream position.
pub struct MelodyEngine {
    sample_rate: u32,
    notes: Vec<NoteSpan>,
    shifter: MelodyShifter,
    harmonic_eq: HarmonicEQ,
    timbre_active_note_idx: Option<usize>,
    timbre_filters: Vec<Biquad>,
    timbre_lp: u32,
    timbre_last_f0: u32,
    stream_pos: u64,
}

impl View for MelodyEngine {
    type V = EngineModel;

    closed spec fn view(&self) -> EngineModel {
        EngineModel {
            sr: self.sample_rate,
            notes: models(self.notes@),
            shifter: self.shifter@,
            geq: self.harmonic_eq.gains@,
            t_active: match self.timbre_active_note_idx {
                Some(i) => Some(i as int),
                None => None,
            },
            timbre: TimbreModel {
                filters: self.timbre_filters@,
                lp: self.timbre_lp,
                last_f0: self.timbre_last_f0,
            },
            pos: self.stream_pos as int,
        }
    }
}

impl MelodyEngine {
    /// A fresh engine at the given sample rate (a binary32 bit pattern):
    /// empty timeline, delay buffer sized from the rate, unity harmonic
    /// gains, cleared timbre state, stream position zero.
    pub fn new(sample_rate: u32) -> (s: MelodyEngine)
        ensures
            engine_wf(s@),
            s@.sr == sample_rate,
            s@.notes =~= Seq::<NoteModel>::empty(),
            s@.geq =~= Seq::<u32>::empty(),
            s@.shifter.buf.len() == spec_delay_len(sample_rate),
            forall|i: int| 0 <= i < s@.shifter.buf.len() ==> s@.shifter.buf[i] == B_ZERO,
            s@.shifter.widx == 0 && s@.shifter.dp == B_ZERO && s@.shifter.sr == sample_rate,
            s@.t_active is None,
            s@.timbre.filters =~= Seq::<Biquad>::empty(),
            s@.timbre.lp == B_ZERO && s@.timbre.last_f0 == B_ZERO,
            s@.pos == 0,
    {
        MelodyEngine {
            sample_rate,
            notes: Vec::new(),
            shifter: MelodyShifter::new(sample_rate),
            harmonic_eq: HarmonicEQ::new(),
            timbre_active_note_idx: None,
            timbre_filters: Vec::new(),
            timbre_lp: B_ZERO,
            timbre_last_f0: B_ZERO,
            stream_pos: 0,
        }
    }

    /// The configured sample rate, as a binary32 bit pattern.
    pub fn sample_rate(&self) -> (r: u32)
        ensures
            r == self@.sr,
    {
        self.sample_rate
    }

    /// The number of notes in the timeline.
    pub fn note_count(&self) -> (r: usize)
        ensures
            r as int == self@.notes.len(),
    {
        self.notes.len()
    }

    /// The note at timeline position `i`.
    pub fn note_at(&self, i: usize) -> (r: &NoteSpan)
        requires
            i < self@.notes.len(),
        ensures
            r@ == self@.notes[i as int],
    {
        &self.notes[i]
    }

    /// The effective global gain of harmonic slot `idx` (0-based): the
    /// stored table entry, or unity beyond the table.
    pub fn harmonic_gain(&self, idx: usize) -> (r: u32)
        ensures
            r == crate::timbre::spec_eq_gain(self@.geq, idx as int),
    {
        self.harmonic_eq.gain(idx)
    }

    /// Replaces the global harmonic gain table: non-finite entries default
    /// to unity, the rest clamp into `[0, 4]`.  Nothing else changes.
    pub fn set_harmonic_gains(&mut self, gains: Vec<u32>)
        ensures
            final(self)@.geq.len() == gains@.len(),
            forall|i: int|
                0 <= i < gains@.len() ==> final(self)@.geq[i] == spec_clamp_gain(gains@[i]),
            final(self)@ == (EngineModel { geq: final(self)@.geq, ..old(self)@ }),
    {
        let mut out: Vec<u32> = Vec::new();
        let mut i: usize = 0;
        let n = gains.len();
        while i < n
            invariant
                i <= n,
                n == gains@.len(),
                out@.len() == i,
                forall|t: int| 0 <= t < i ==> out@[t] == spec_clamp_gain(gains@[t]),
            decreases n - i,
        {
            let g = gains[i];
            if !f_is_finite(g) {
                out.push(B_ONE);
            } else {
                out.push(f_min(f_max(g, B_ZERO), B_FOUR));
            }
            i += 1;
        }
        self.harmonic_eq.gains = out;
    }

    /// Replaces the note timeline.  The parallel arrays are truncated to
    /// their shortest common length; a candidate with any non-finite field,
    /// or whose span is empty after the non-negative time clamp (so no note
    /// with `end <= start` ever reaches the timeline), is dropped; the kept
    /// spans are clamped and stable-sorted by non-decreasing start (equal
    /// starts keep their input order).  The timbre state is invalidated,
    /// since note indices and profiles may no longer match; the stream
    /// position, the shifter and the gain table are untouched.
    pub fn set_notes(
        &mut self,
        note_starts: Vec<u32>,
        note_ends: Vec<u32>,
        base_semitones: Vec<u32>,
        note_offsets: Vec<u32>,
        pitch_center_offsets: Vec<u32>,
        pitch_mod_amounts: Vec<u32>,
        pitch_drift_amounts: Vec<u32>,
        time_stretch_starts: Vec<u32>,
        time_stretch_ends: Vec<u32>,
        formant_shifts: Vec<u32>,
        harmonics_per_note: u32,
        note_harmonics_flat: Vec<u32>,
    )
        requires
            engine_wf(old(self)@),
        ensures
            engine_wf(final(self)@),
            ({
                let inp = NoteInput {
                    starts: note_starts@,
                    ends: note_ends@,
                    bases: base_semitones@,
                    offsets: note_offsets@,
                    centers: pitch_center_offsets@,
                    mods: pitch_mod_amounts@,
                    drifts: pitch_drift_amounts@,
                    stretch_s: time_stretch_starts@,
                    stretch_e: time_stretch_ends@,
                    formants: formant_shifts@,
                    hp: harmonics_per_note as int,
                    flat: note_harmonics_flat@,
                };
                let cand = spec_candidates(inp, old(self)@.sr);
                &&& final(self)@.notes == spec_sort_by_start(cand)
                &&& final(self)@.notes.to_multiset() == cand.to_multiset()
                &&& final(self)@.notes.len() == cand.len()
                &&& cand.len() <= spec_min_len(inp)
                &&& sorted_by_start(final(self)@.notes)
                &&& forall|i: int|
                    0 <= i < final(self)@.notes.len() ==> note_wf(#[trigger] final(self)@.notes[i])
            }),
            final(self)@.t_active is None,
            final(self)@.timbre.filters =~= Seq::<Biquad>::empty(),
            final(self)@.timbre.lp == B_ZERO && final(self)@.timbre.last_f0 == B_ZERO,
            final(self)@.sr == old(self)@.sr,
            final(self)@.shifter == old(self)@.shifter,
            final(self)@.geq == old(self)@.geq,
            final(self)@.pos == old(self)@.pos,
    {
        let built = build_notes(
            &note_starts,
            &note_ends,
            &base_semitones,
            &note_offsets,
            &pitch_center_offsets,
            &pitch_mod_amounts,
            &pitch_drift_amounts,
            &time_stretch_starts,
            &time_stretch_ends,
            &formant_shifts,
            harmonics_per_note,
            &note_harmonics_flat,
            self.sample_rate,
        );
        self.notes = built;
        self.timbre_active_note_idx = None;
        self.timbre_filters.clear();
        self.timbre_lp = B_ZERO;
        self.timbre_last_f0 = B_ZERO;
    }

    /// Processes the buffer in place along the note timeline (binary32 bit
    /// patterns).  A no-op on an empty buffer, an empty timeline or an
    /// unusable sample rate; otherwise exactly the scheduled passes of the
    /// processing spec, and the stream position advances by the buffer
    /// length.
    #[verifier::rlimit(100)]
    #[verifier::spinoff_prover]
    pub fn process_buffer(&mut self, input: &mut Vec<u32>)
        requires
            engine_wf(old(self)@),
            old(self)@.pos + old(input)@.len() + 256 < u64::MAX,
        ensures
            engine_wf(final(self)@),
            final(input)@.len() == old(input)@.len(),
            ({
                let r = spec_engine_process(old(self)@, old(input)@);
                final(self)@ == r.0 && final(input)@ == r.1
            }),
    {
        let n = input.len();
        if n == 0 {
            return;
        }
        if self.notes.len() == 0 {
            return;
        }
        let sr = self.sample_rate;
        if !f_is_finite(sr) || f_le(sr, B_ZERO) {
            proof {
                lemma_const_classes();
            }
            return;
        }
        proof {
            lemma_const_classes();
            assert(spec_sr_valid(sr));
        }
        let ghost ev0 = self@;
        let ghost whole = input@;
        let base: u64 = self.stream_pos;
        let mut i: usize = 0;
        let mut note_idx: usize = 0;
        proof {
            assert(whole.subrange(0, n as int) =~= whole);
            assert(input@.subrange(0, 0) + spec_engine_process(ev0, whole).1 =~=
                spec_engine_process(ev0, whole).1);
        }
        while i < n
            invariant
                i <= n,
                n == input@.len(),
                n == whole.len(),
                engine_wf(self@),
                self@.sr == ev0.sr,
                sr == ev0.sr,
                spec_sr_valid(self@.sr),
                self@.notes == ev0.notes,
                self@.notes.len() > 0,
                self@.geq == ev0.geq,
                self@.pos == base + i,
                base == ev0.pos,
                ev0.pos + n + 256 < u64::MAX,
                note_idx <= self@.notes.len(),
                forall|j: int|
                    0 <= j < note_idx ==> (#[trigger] self@.notes[j]).end_sample <= base + i,
                input@.subrange(i as int, n as int) =~= whole.subrange(i as int, n as int),
                ({
                    let rfull = spec_engine_process(ev0, whole);
                    let rrem = spec_engine_process(self@, whole.subrange(i as int, n as int));
                    rfull.0 == rrem.0 && rfull.1 =~= input@.subrange(0, i as int) + rrem.1
                }),
            decreases n - i,
        {
            let ghost self_before = self@;
            let ghost xs_rem = whole.subrange(i as int, n as int);
            let p: u64 = base + (i as u64);
            while note_idx < self.notes.len() && self.notes[note_idx].end_sample <= p
                invariant
                    note_idx <= self@.notes.len(),
                    self@ == self_before,
                    forall|j: int|
                        0 <= j < note_idx ==> (#[trigger] self@.notes[j]).end_sample <= p,
                decreases self@.notes.len() - note_idx,
            {
                note_idx += 1;
            }
            proof {
                lemma_scan_shift(self@.notes, 0, note_idx as int, p as int);
                assert(spec_scan(self@.notes, note_idx as int, p as int) == note_idx as int);
                assert(spec_scan(self@.notes, 0, p as int) == note_idx as int);
            }
            let decided = decide_seg(&self.notes, note_idx, p, sr);
            let offset: u32 = decided.0;
            let seg_end: u64 = decided.1;
            let active: Option<usize> = decided.2;
            let ghost seg = spec_seg(models(self.notes@), sr, p as int);
            proof {
                assert(offset == seg.offset);
                assert(seg_end as int == seg.end);
                assert(models(self.notes@) == self_before.notes);
                assert(self_before.pos == p as int);
                assert(seg == spec_seg(self_before.notes, self_before.sr, self_before.pos));
            }
            let e1: u64 = if seg_end >= p + 1 {
                seg_end
            } else {
                p + 1
            };
            let len64: u64 = e1 - p;
            let rem: u64 = (n - i) as u64;
            let take64: u64 = if len64 <= rem {
                len64
            } else {
                rem
            };
            let take: usize = take64 as usize;
            let to: usize = i + take;
            let ghost chunk = xs_rem.subrange(0, take as int);
            proof {
                assert(chunk =~= input@.subrange(i as int, to as int));
            }
            let ghost i0 = i as int;
            let ghost pre = input@;
            self.shifter.process_range(input, i, to, offset);
            let ghost sres = spec_process_block(self_before.shifter, chunk, seg.offset);
            proof {
                crate::shifter::lemma_process_block_len(self_before.shifter, chunk, seg.offset);
                assert(sres.1.len() == take as int);
                assert(input@ == pre.subrange(0, i0) + sres.1 + pre.subrange(to as int,
                    n as int));
                assert(input@.subrange(i0, to as int) =~= sres.1);
                assert(input@.subrange(0, i0) =~= pre.subrange(0, i0));
                assert(input@.subrange(to as int, n as int) =~= pre.subrange(to as int, n as int));
            }
            if let Some(nidx) = active {
                let same = match self.timbre_active_note_idx {
                    Some(cur) => cur == nidx,
                    None => false,
                };
                if !same {
                    self.timbre_active_note_idx = Some(nidx);
                    self.timbre_filters.clear();
                    self.timbre_lp = B_ZERO;
                    self.timbre_last_f0 = B_ZERO;
                }
                proof {
                    assert(TimbreModel {
                        filters: self.timbre_filters@,
                        lp: self.timbre_lp,
                        last_f0: self.timbre_last_f0,
                    } =~= spec_timbre_in(self_before, nidx as int));
                }
                let ghost shifted = input@;
                let note = &self.notes[nidx];
                apply_harmonic_and_formant(
                    input,
                    i,
                    to,
                    sr,
                    &self.harmonic_eq,
                    note,
                    &mut self.timbre_filters,
                    &mut self.timbre_lp,
                    &mut self.timbre_last_f0,
                );
                proof {
                    let tm_in = spec_timbre_in(self_before, nidx as int);
                    let tr = spec_timbre_apply(tm_in, sres.1, self_before.notes[nidx as int],
                        self_before.sr, self_before.geq);
                    assert(shifted.subrange(i0, to as int) =~= sres.1);
                    assert(note@ == self_before.notes[nidx as int]);
                    assert(self.harmonic_eq.gains@ == self_before.geq);
                    assert(tr == spec_timbre_apply(tm_in, shifted.subrange(i0, to as int), note@,
                        sr, self.harmonic_eq.gains@));
                    assert(input@ == shifted.subrange(0, i0) + tr.1 + shifted.subrange(to as int,
                        n as int));
                    assert(tr.1.len() == to - i0);
                    assert(input@.subrange(0, i0) =~= pre.subrange(0, i0));
                    assert(input@.subrange(i0, to as int) =~= tr.1);
                    assert(input@.subrange(to as int, n as int) =~= pre.subrange(to as int,
                        n as int));
                }
            }
            let ghost out_seg = input@.subrange(i0, to as int);
            self.stream_pos = p + take64;
            i = to;
            proof {
                let rstep = spec_engine_process(self_before, xs_rem);
                let step = match seg.idx {
                    Some(si) => {
                        let tr = spec_timbre_apply(spec_timbre_in(self_before, si), sres.1,
                            self_before.notes[si], self_before.sr, self_before.geq);
                        (tr.0, tr.1, Some(si))
                    },
                    None => (self_before.timbre, sres.1, self_before.t_active),
                };
                let ev1 = EngineModel {
                    shifter: sres.0,
                    timbre: step.0,
                    t_active: step.2,
                    pos: self_before.pos + take as int,
                    ..self_before
                };
                assert(self@ =~~= ev1);
                assert(out_seg =~= step.1);
                let rec = spec_engine_process(ev1, xs_rem.subrange(take as int,
                    xs_rem.len() as int));
                assert(rstep.0 == rec.0 && rstep.1 == step.1 + rec.1);
                let rrem2 = spec_engine_process(self@, whole.subrange(i as int, n as int));
                assert(xs_rem.subrange(take as int, xs_rem.len() as int) =~= whole.subrange(
                    i as int, n as int));
                assert(rstep.0 == rrem2.0);
                assert(input@.subrange(0, i as int) =~= input@.subrange(0, i0) + out_seg);
                assert(input@.subrange(i as int, n as int) =~= whole.subrange(i as int,
                    n as int));
                let rfull = spec_engine_process(ev0, whole);
                assert(rfull.1 =~= input@.subrange(0, i0) + rstep.1);
                assert(rfull.1 =~= input@.subrange(0, i as int) + rrem2.1);
            }
        }
        proof {
            assert(whole.subrange(n as int, n as int) =~= Seq::<u32>::empty());
            let rrem = spec_engine_process(self@, whole.subrange(n as int, n as int));
            let rfull = spec_engine_process(ev0, whole);
            assert(rfull.0 == self@);
            assert(input@.subrange(0, n as int) =~= input@);
            assert(rfull.1 =~= input@);
        }
    }
}

} // verus!
