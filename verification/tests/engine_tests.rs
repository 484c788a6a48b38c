use melody_dsp::engine::MelodyEngine;

fn bits(x: f32) -> u32 {
    x.to_bits()
}

fn to_bits_vec(xs: &[f32]) -> Vec<u32> {
    xs.iter().map(|x| x.to_bits()).collect()
}

fn lcg_samples(n: usize, seed: u32) -> Vec<f32> {
    let mut state = seed;
    let mut out = Vec::with_capacity(n);
    for _ in 0..n {
        state = state.wrapping_mul(1664525).wrapping_add(1013904223);
        let v = ((state >> 8) as f32) / ((1u32 << 24) as f32);
        out.push(v * 2.0 - 1.0);
    }
    out
}

/// Replaces the timeline from plain `f32` rows: one row per note of
/// `[start, end, base, offset, center, mod, drift, stretch_s, stretch_e, formant]`.
fn set_notes_rows(e: &mut MelodyEngine, rows: &[[f32; 10]], hp: u32, flat: &[f32]) {
    let col = |i: usize| -> Vec<u32> { rows.iter().map(|r| r[i].to_bits()).collect() };
    e.set_notes(
        col(0),
        col(1),
        col(2),
        col(3),
        col(4),
        col(5),
        col(6),
        col(7),
        col(8),
        col(9),
        hp,
        to_bits_vec(flat),
    );
}

#[test]
fn mismatched_lengths_truncate_to_shortest() {
    let mut e = MelodyEngine::new(bits(48000.0));
    // three starts but only two of everything else: the third candidate is
    // never considered
    e.set_notes(
        to_bits_vec(&[0.0, 1.0, 2.0]),
        to_bits_vec(&[0.5, 1.5]),
        to_bits_vec(&[60.0, 62.0]),
        to_bits_vec(&[1.0, 1.0]),
        to_bits_vec(&[0.0, 0.0]),
        to_bits_vec(&[0.0, 0.0]),
        to_bits_vec(&[0.0, 0.0]),
        to_bits_vec(&[1.0, 1.0]),
        to_bits_vec(&[1.0, 1.0]),
        to_bits_vec(&[0.0, 0.0]),
        0,
        Vec::new(),
    );
    assert_eq!(e.note_count(), 2);
}

#[test]
fn invalid_candidates_are_dropped() {
    let mut e = MelodyEngine::new(bits(48000.0));
    set_notes_rows(
        &mut e,
        &[
            [f32::NAN, 1.0, 60.0, 0.0, 0.0, 0.0, 0.0, 1.0, 1.0, 0.0],
            [0.0, f32::INFINITY, 60.0, 0.0, 0.0, 0.0, 0.0, 1.0, 1.0, 0.0],
            [2.0, 1.0, 60.0, 0.0, 0.0, 0.0, 0.0, 1.0, 1.0, 0.0],
            [1.0, 1.0, 60.0, 0.0, 0.0, 0.0, 0.0, 1.0, 1.0, 0.0],
            [0.5, 0.75, 60.0, 0.0, 0.0, 0.0, 0.0, 1.0, 1.0, 0.0],
            [0.25, 0.5, 60.0, 0.0, 0.0, f32::NEG_INFINITY, 0.0, 1.0, 1.0, 0.0],
            // entirely below time zero: collapses to an empty span under the
            // non-negative clamp, so it is dropped too
            [-2.0, -1.0, 60.0, 0.0, 0.0, 0.0, 0.0, 1.0, 1.0, 0.0],
        ],
        0,
        &[],
    );
    // only the one fully finite span that stays non-empty after clamping
    // survives; in particular no stored note has end <= start
    assert_eq!(e.note_count(), 1);
    let n = e.note_at(0);
    assert!(f32::from_bits(n.start) < f32::from_bits(n.end));
    assert_eq!(f32::from_bits(e.note_at(0).start), 0.5);
    assert_eq!(f32::from_bits(e.note_at(0).end), 0.75);
}

#[test]
fn note_fields_are_clamped() {
    let mut e = MelodyEngine::new(bits(48000.0));
    set_notes_rows(
        &mut e,
        &[[-1.0, 2.0, 69.0, 3.0, 0.5, 5.0, -1.0, 0.1, 9.0, 2.5]],
        2,
        &[10.0, f32::NAN],
    );
    assert_eq!(e.note_count(), 1);
    let n = e.note_at(0);
    assert_eq!(f32::from_bits(n.start), 0.0); // clamped non-negative
    assert_eq!(f32::from_bits(n.end), 2.0);
    assert_eq!(f32::from_bits(n.pitch_mod_amount), 2.0); // clamped to [0, 2]
    assert_eq!(f32::from_bits(n.pitch_drift_amount), 0.0);
    assert_eq!(f32::from_bits(n.time_stretch_start), 0.5); // clamped to [0.5, 2]
    assert_eq!(f32::from_bits(n.time_stretch_end), 2.0);
    assert_eq!(n.harmonic_profile.len(), 2);
    assert_eq!(f32::from_bits(n.harmonic_profile[0]), 4.0); // gain clamp
    assert_eq!(f32::from_bits(n.harmonic_profile[1]), 1.0); // NaN defaults
    assert_eq!(n.start_sample, 0);
    assert_eq!(n.end_sample, 96000);
}

#[test]
fn short_harmonic_table_defaults_to_unity() {
    let mut e = MelodyEngine::new(bits(48000.0));
    set_notes_rows(
        &mut e,
        &[
            [0.0, 1.0, 60.0, 0.0, 0.0, 0.0, 0.0, 1.0, 1.0, 0.0],
            [1.0, 2.0, 62.0, 0.0, 0.0, 0.0, 0.0, 1.0, 1.0, 0.0],
        ],
        3,
        &[2.0, 3.0, 0.5, 1.5], // only enough data for the first note
    );
    assert_eq!(e.note_count(), 2);
    let a = e.note_at(0);
    assert_eq!(f32::from_bits(a.harmonic_profile[0]), 2.0);
    assert_eq!(f32::from_bits(a.harmonic_profile[1]), 3.0);
    assert_eq!(f32::from_bits(a.harmonic_profile[2]), 0.5);
    let b = e.note_at(1);
    for j in 0..3 {
        assert_eq!(f32::from_bits(b.harmonic_profile[j]), 1.0);
    }
}

#[test]
fn timeline_is_sorted_by_start() {
    let mut e = MelodyEngine::new(bits(48000.0));
    set_notes_rows(
        &mut e,
        &[
            [2.0, 3.0, 60.0, 0.0, 0.0, 0.0, 0.0, 1.0, 1.0, 0.0],
            [0.5, 0.6, 61.0, 0.0, 0.0, 0.0, 0.0, 1.0, 1.0, 0.0],
            [1.0, 1.5, 62.0, 0.0, 0.0, 0.0, 0.0, 1.0, 1.0, 0.0],
        ],
        0,
        &[],
    );
    assert_eq!(e.note_count(), 3);
    let starts: Vec<f32> = (0..3).map(|i| f32::from_bits(e.note_at(i).start)).collect();
    assert_eq!(starts, vec![0.5, 1.0, 2.0]);
    assert_eq!(f32::from_bits(e.note_at(0).base_semitone), 61.0);
}

#[test]
fn equal_starts_keep_input_order() {
    // the sort is stable: spans sharing a start time stay in input order
    let mut e = MelodyEngine::new(bits(48000.0));
    set_notes_rows(
        &mut e,
        &[
            [1.0, 2.0, 64.0, 0.0, 0.0, 0.0, 0.0, 1.0, 1.0, 0.0],
            [0.5, 0.7, 60.0, 0.0, 0.0, 0.0, 0.0, 1.0, 1.0, 0.0],
            [0.5, 0.8, 61.0, 0.0, 0.0, 0.0, 0.0, 1.0, 1.0, 0.0],
            [0.5, 0.9, 62.0, 0.0, 0.0, 0.0, 0.0, 1.0, 1.0, 0.0],
        ],
        0,
        &[],
    );
    let bases: Vec<f32> = (0..4).map(|i| f32::from_bits(e.note_at(i).base_semitone)).collect();
    assert_eq!(bases, vec![60.0, 61.0, 62.0, 64.0]);
}

#[test]
fn harmonic_cap_is_the_smaller_table() {
    // the usable harmonic count is the smaller of the global and per-note
    // table lengths: with no per-note gains the global table contributes
    // nothing, so processing matches an engine with no global gains at all
    let rows = [[0.0f32, 0.05, 69.0, 2.0, 0.0, 0.0, 0.0, 1.0, 1.0, 0.0]];
    let src = lcg_samples(600, 17);

    let mut with_gains = MelodyEngine::new(bits(8000.0));
    with_gains.set_harmonic_gains(to_bits_vec(&[4.0, 4.0]));
    set_notes_rows(&mut with_gains, &rows, 0, &[]);
    let mut a = to_bits_vec(&src);
    with_gains.process_buffer(&mut a);

    let mut without = MelodyEngine::new(bits(8000.0));
    set_notes_rows(&mut without, &rows, 0, &[]);
    let mut b = to_bits_vec(&src);
    without.process_buffer(&mut b);

    assert_eq!(a, b);
}

#[test]
fn harmonic_gains_are_clamped_and_defaulted() {
    let mut e = MelodyEngine::new(bits(48000.0));
    e.set_harmonic_gains(to_bits_vec(&[10.0, -5.0, f32::NAN]));
    assert_eq!(f32::from_bits(e.harmonic_gain(0)), 4.0);
    assert_eq!(f32::from_bits(e.harmonic_gain(1)), 0.0);
    assert_eq!(f32::from_bits(e.harmonic_gain(2)), 1.0);
    // beyond the table every harmonic has unity gain
    assert_eq!(f32::from_bits(e.harmonic_gain(3)), 1.0);
    assert_eq!(f32::from_bits(e.harmonic_gain(100)), 1.0);
}

#[test]
fn silence_in_silence_out() {
    let mut e = MelodyEngine::new(bits(48000.0));
    set_notes_rows(
        &mut e,
        &[[0.0, 1.0, 69.0, 12.0, 0.0, 0.0, 0.0, 1.0, 1.0, 0.0]],
        0,
        &[],
    );
    let mut buf = vec![0u32; 48000];
    e.process_buffer(&mut buf);
    for &v in buf.iter() {
        assert_eq!(f32::from_bits(v), 0.0);
    }
}

#[test]
fn empty_timeline_is_a_noop() {
    let mut e = MelodyEngine::new(bits(48000.0));
    let src = lcg_samples(500, 3);
    let mut buf = to_bits_vec(&src);
    let before = buf.clone();
    e.process_buffer(&mut buf);
    assert_eq!(buf, before);
}

#[test]
fn invalid_sample_rate_is_a_noop() {
    for sr in [f32::NAN, 0.0, -48000.0, f32::INFINITY] {
        let mut e = MelodyEngine::new(bits(sr));
        set_notes_rows(
            &mut e,
            &[[0.0, 1.0, 69.0, 12.0, 0.0, 0.0, 0.0, 1.0, 1.0, 0.0]],
            0,
            &[],
        );
        let src = lcg_samples(300, 4);
        let mut buf = to_bits_vec(&src);
        let before = buf.clone();
        e.process_buffer(&mut buf);
        assert_eq!(buf, before);
    }
}

fn configured_engine() -> MelodyEngine {
    let mut e = MelodyEngine::new(bits(48000.0));
    e.set_harmonic_gains(to_bits_vec(&[1.5, 0.8, 1.2]));
    set_notes_rows(
        &mut e,
        &[
            [0.0, 0.02, 69.0, 2.0, 0.5, 1.5, 0.8, 1.0, 1.3, 3.0],
            [0.02, 0.04, 64.0, -3.0, 0.0, 0.0, 1.2, 0.7, 1.0, -2.0],
        ],
        3,
        &[1.0, 0.5, 2.0, 0.9, 1.1, 1.0],
    );
    e
}

#[test]
fn chunked_processing_equals_one_call() {
    let src = lcg_samples(2000, 9);
    let mut one = configured_engine();
    let mut whole = to_bits_vec(&src);
    one.process_buffer(&mut whole);

    for split in [1usize, 100, 128, 999, 1024, 1999] {
        let mut two = configured_engine();
        let mut first = to_bits_vec(&src[..split]);
        let mut second = to_bits_vec(&src[split..]);
        two.process_buffer(&mut first);
        two.process_buffer(&mut second);
        first.extend_from_slice(&second);
        assert_eq!(first, whole, "split at {split}");
    }

    // three-way split as well
    let mut three = configured_engine();
    let mut a = to_bits_vec(&src[..37]);
    let mut b = to_bits_vec(&src[37..1200]);
    let mut c = to_bits_vec(&src[1200..]);
    three.process_buffer(&mut a);
    three.process_buffer(&mut b);
    three.process_buffer(&mut c);
    a.extend_from_slice(&b);
    a.extend_from_slice(&c);
    assert_eq!(a, whole);
}

#[test]
fn overlapping_spans_do_not_crash() {
    // Behaviour under overlapping spans is undefined by design; this
    // records what the scan-order scheduler does: the earlier-starting
    // note stays active until its own end has passed, so it wins over any
    // later-starting overlap for as long as it lasts.
    let mut e = MelodyEngine::new(bits(8000.0));
    set_notes_rows(
        &mut e,
        &[
            [0.0, 0.1, 69.0, 12.0, 0.0, 0.0, 0.0, 1.0, 1.0, 0.0],
            [0.05, 0.2, 50.0, -12.0, 0.0, 0.0, 0.0, 1.0, 1.0, 0.0],
        ],
        0,
        &[],
    );
    assert_eq!(e.note_count(), 2);
    let src = lcg_samples(1600, 11);
    let mut buf = to_bits_vec(&src);
    e.process_buffer(&mut buf);
    assert_eq!(buf.len(), 1600);

    // the same overlapping timeline still processes chunk-invariantly
    let mut e2 = MelodyEngine::new(bits(8000.0));
    set_notes_rows(
        &mut e2,
        &[
            [0.0, 0.1, 69.0, 12.0, 0.0, 0.0, 0.0, 1.0, 1.0, 0.0],
            [0.05, 0.2, 50.0, -12.0, 0.0, 0.0, 0.0, 1.0, 1.0, 0.0],
        ],
        0,
        &[],
    );
    let mut first = to_bits_vec(&src[..700]);
    let mut second = to_bits_vec(&src[700..]);
    e2.process_buffer(&mut first);
    e2.process_buffer(&mut second);
    first.extend_from_slice(&second);
    assert_eq!(first, buf);
}

#[test]
fn distant_future_note_bypasses_exactly() {
    // the span's huge start saturates the sample-bound conversion; until
    // the note begins the scheduler holds a zero offset, which is an exact
    // bypass
    let mut e = MelodyEngine::new(bits(48000.0));
    set_notes_rows(
        &mut e,
        &[[1.0e30, 1.0e31, 69.0, 12.0, 0.0, 0.0, 0.0, 1.0, 1.0, 0.0]],
        0,
        &[],
    );
    assert_eq!(e.note_count(), 1);
    let src = lcg_samples(1000, 13);
    let mut buf = to_bits_vec(&src);
    let before = buf.clone();
    e.process_buffer(&mut buf);
    assert_eq!(buf, before);
}

#[test]
fn finished_notes_are_never_revisited() {
    // one short note at the head of the stream: the first call plays
    // through it, the second call lies wholly past its end and bypasses
    let mut e = MelodyEngine::new(bits(48000.0));
    set_notes_rows(
        &mut e,
        &[[0.0, 0.001, 69.0, 12.0, 0.0, 0.0, 0.0, 1.0, 1.0, 0.0]],
        0,
        &[],
    );
    let src = lcg_samples(200, 14);
    let mut first = to_bits_vec(&src);
    e.process_buffer(&mut first);
    let src2 = lcg_samples(300, 15);
    let mut second = to_bits_vec(&src2);
    let before = second.clone();
    e.process_buffer(&mut second);
    assert_eq!(second, before);
}

#[test]
fn engine_reports_sample_rate() {
    let e = MelodyEngine::new(bits(22050.0));
    assert_eq!(f32::from_bits(e.sample_rate()), 22050.0);
}
