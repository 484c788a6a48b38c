//! An independent plain-`f32` model of the whole pipeline, compared
//! bit-for-bit against the library.  Any arithmetic wrapper that returned
//! the wrong value, and any slip in the transcendental helpers or in the
//! scheduling, would show up as a sample mismatch here.

use melody_dsp::engine::MelodyEngine;
use melody_dsp::shifter::MelodyShifter;

const TWO_PI: u32 = 0x40C90FDB;
const PI: u32 = 0x40490FDB;
const PI_HALF: u32 = 0x3FC90FDB;
const NEG_TWO_PI: u32 = 0xC0C90FDB;
const TWO_PI_5_5: u32 = 0x420A3AE7;
const LOG2_E: u32 = 0x3FB8AA3B;
const QNAN: u32 = 0x7FC00000;

fn b(x: u32) -> f32 {
    f32::from_bits(x)
}

fn exp2_ref(x: f32) -> f32 {
    if x.is_nan() {
        return x;
    }
    if x >= 128.0 {
        return f32::INFINITY;
    }
    if x <= -126.0 {
        return 0.0;
    }
    let nf = x.floor();
    let off = (nf + 126.0) as u64;
    let n_off = if off > 253 { 253 } else { off };
    let f = x - nf;
    let mut p = b(0x3AEA_7FD6);
    p = p * f + b(0x3C16_94B0);
    p = p * f + b(0x3D64_04EF);
    p = p * f + b(0x3E75_F7AB);
    p = p * f + b(0x3F31_7226);
    let q = 1.0 + f * p;
    let scale = f32::from_bits(((n_off as u32) + 1) << 23);
    q * scale
}

fn exp_ref(x: f32) -> f32 {
    exp2_ref(x * b(LOG2_E))
}

fn sin_ref(x: f32) -> f32 {
    if !x.is_finite() {
        return b(QNAN);
    }
    let r0 = x % b(TWO_PI);
    let r1 = if b(PI) < r0 {
        r0 - b(TWO_PI)
    } else if r0 < -b(PI) {
        r0 + b(TWO_PI)
    } else {
        r0
    };
    let r2 = if b(PI_HALF) < r1 {
        b(PI) - r1
    } else if r1 < -b(PI_HALF) {
        -b(PI) - r1
    } else {
        r1
    };
    let t = r2 * r2;
    let mut p = b(0x362F_5844);
    p = p * t + b(0xB94F_BFAB);
    p = p * t + b(0x3C08_878B);
    p = p * t + b(0xBE2A_AAA6);
    p = p * t + 1.0;
    p * r2
}

fn cos_ref(x: f32) -> f32 {
    sin_ref(b(PI_HALF) - x)
}

fn sqrt_ref(x: f32) -> f32 {
    if x.is_nan() {
        return x;
    }
    if x == 0.0 {
        return x;
    }
    if x.is_sign_negative() {
        return b(QNAN);
    }
    if x.is_infinite() {
        return x;
    }
    let g0 = f32::from_bits(x.to_bits() / 2 + 0x1FBD_1DF5);
    let g1 = 0.5 * (g0 + x / g0);
    let g2 = 0.5 * (g1 + x / g1);
    0.5 * (g2 + x / g2)
}

fn tanh_ref(x: f32) -> f32 {
    if x.is_nan() {
        return x;
    }
    if x.abs() < 1.0e-4 {
        return x;
    }
    if x >= 9.0 {
        return 1.0;
    }
    if x <= -9.0 {
        return -1.0;
    }
    let e2 = exp2_ref((x * 2.0) * b(LOG2_E));
    (e2 - 1.0) / (e2 + 1.0)
}

fn midi_to_hz_ref(m: f32) -> f32 {
    440.0 * exp2_ref((m - 69.0) / 12.0)
}

struct ShifterRef {
    buffer: Vec<f32>,
    widx: usize,
    dp: f32,
}

impl ShifterRef {
    fn new(sr: f32) -> ShifterRef {
        let raw = (sr * 0.04).round() as u64;
        let len = raw.clamp(256, 16384) as usize;
        ShifterRef { buffer: vec![0.0; len], widx: 0, dp: 0.0 }
    }

    fn ratio(semitones: f32) -> f32 {
        let r0 = exp2_ref(semitones / 12.0);
        let r1 = if !r0.is_finite() || r0 <= 0.0 { 1.0 } else { r0 };
        r1.max(0.5).min(2.0)
    }

    fn read_interp(buf: &[f32], widx: usize, d: f32) -> f32 {
        let len = buf.len();
        if len <= 1 {
            return 0.0;
        }
        let lenf = len as f32;
        let mut pos = ((widx as f32) - d) % lenf;
        if pos < 0.0 {
            pos += lenf;
        }
        let i0u = pos.floor() as u64;
        let i0 = if i0u >= len as u64 { len - 1 } else { i0u as usize };
        let frac = pos - (i0 as f32);
        let i1 = if i0 + 1 >= len { 0 } else { i0 + 1 };
        buf[i0] + (buf[i1] - buf[i0]) * frac
    }

    fn process_block(&mut self, input: &mut [f32], semitones: f32) {
        if input.is_empty() {
            return;
        }
        let ratio = Self::ratio(semitones);
        let byp = semitones.abs() < 1.0e-3 || (ratio - 1.0).abs() < 1.0e-3;
        let len = self.buffer.len();
        let lenf = len as f32;
        for x in input.iter_mut() {
            let inp = *x;
            self.buffer[self.widx] = inp;
            let out = if byp {
                inp
            } else {
                let half = lenf * 0.5;
                let d1 = self.dp;
                let mut d2 = d1 + half;
                if lenf <= d2 {
                    d2 -= lenf;
                }
                let y1 = Self::read_interp(&self.buffer, self.widx, d1);
                let y2 = Self::read_interp(&self.buffer, self.widx, d2);
                let fade = 0.5 - 0.5 * cos_ref((b(TWO_PI) * d1) / lenf);
                y1 * fade + y2 * (1.0 - fade)
            };
            *x = out;
            self.widx = if self.widx + 1 >= len { 0 } else { self.widx + 1 };
            let mut dp = self.dp + (1.0 - ratio);
            if dp < 0.0 {
                dp += lenf;
            }
            if lenf <= dp {
                dp -= lenf;
            }
            self.dp = dp;
        }
    }
}

#[derive(Clone)]
struct NoteRef {
    start: f32,
    end: f32,
    base: f32,
    offset: f32,
    center: f32,
    mod_amount: f32,
    drift_amount: f32,
    stretch_s: f32,
    stretch_e: f32,
    formant: f32,
    profile: Vec<f32>,
    start_sample: u64,
    end_sample: u64,
}

#[derive(Clone, Copy)]
struct BiquadRef {
    b0: f32,
    b1: f32,
    b2: f32,
    a1: f32,
    a2: f32,
    z1: f32,
    z2: f32,
}

fn bandpass_ref(sr: f32, f0: f32, q: f32) -> BiquadRef {
    let f0c = f0.max(1.0).min(sr * 0.49);
    let w0 = (b(TWO_PI) * f0c) / sr;
    let cos_w0 = cos_ref(w0);
    let sin_w0 = sin_ref(w0);
    let alpha = sin_w0 / (2.0 * q.max(0.1));
    let a0 = 1.0 + alpha;
    BiquadRef {
        b0: alpha / a0,
        b1: 0.0 / a0,
        b2: -alpha / a0,
        a1: (-2.0 * cos_w0) / a0,
        a2: (1.0 - alpha) / a0,
        z1: 0.0,
        z2: 0.0,
    }
}

struct EngineRef {
    sr: f32,
    notes: Vec<NoteRef>,
    shifter: ShifterRef,
    gains: Vec<f32>,
    t_active: Option<usize>,
    filters: Vec<BiquadRef>,
    lp: f32,
    last_f0: f32,
    pos: u64,
}

impl EngineRef {
    fn new(sr: f32) -> EngineRef {
        EngineRef {
            sr,
            notes: Vec::new(),
            shifter: ShifterRef::new(sr),
            gains: Vec::new(),
            t_active: None,
            filters: Vec::new(),
            lp: 0.0,
            last_f0: 0.0,
            pos: 0,
        }
    }

    fn offset_of(&self, n: &NoteRef, seg_start: u64, w_end: u64) -> f32 {
        let mid = (seg_start as f32) + ((w_end - seg_start) as f32) * 0.5;
        let t_mid = mid / self.sr;
        let dur = (n.end - n.start).max(1.0e-6);
        let mut u = (t_mid - n.start) / dur;
        if u < 0.0 {
            u = 0.0;
        }
        if 1.0 < u {
            u = 1.0;
        }
        let center = n.offset + n.center;
        let mod_part = sin_ref(b(TWO_PI_5_5) * (t_mid - n.start)) * (0.25 * n.mod_amount);
        let drift_part = ((u - 0.5) * 2.0) * (0.2 * n.drift_amount);
        let ramp_s = (0.03 * n.stretch_s).min(dur * 0.45).max(0.0);
        let ramp_e = (0.03 * n.stretch_e).min(dur * 0.45).max(0.0);
        let mut env = 1.0f32;
        if 0.0 < ramp_s {
            let a = (t_mid - n.start) / ramp_s;
            env = env.min(a.max(0.0).min(1.0));
        }
        if 0.0 < ramp_e {
            let bq = (n.end - t_mid) / ramp_e;
            env = env.min(bq.max(0.0).min(1.0));
        }
        ((center + mod_part) + drift_part) * env
    }

    fn apply_timbre(&mut self, input: &mut [f32], nidx: usize) {
        if input.is_empty() || !self.sr.is_finite() || self.sr <= 0.0 {
            return;
        }
        let note = self.notes[nidx].clone();
        let f0 = midi_to_hz_ref(note.base + note.center);
        if !f0.is_finite() || f0 <= 0.0 {
            return;
        }
        let n0 = self.gains.len().min(note.profile.len());
        let n_harm = n0.min(24);
        let lim = (self.sr * 0.5) * 0.98;
        let mut desired = 0usize;
        for h in 1..=n_harm {
            let fh = f0 * (h as f32);
            if fh.is_finite() && fh < lim {
                desired += 1;
            } else {
                break;
            }
        }
        let rel = if self.last_f0.is_finite() && self.last_f0 > 0.0 {
            ((f0 - self.last_f0) / self.last_f0).abs()
        } else {
            1.0
        };
        if self.filters.len() != desired || rel > 0.08 {
            self.filters.clear();
            for h in 0..desired {
                let fh = f0 * ((h + 1) as f32);
                self.filters.push(bandpass_ref(self.sr, fh, 12.0));
            }
            self.last_f0 = f0;
        }
        let nf = if self.filters.len() >= 1 { self.filters.len() as u64 } else { 1 };
        let nff = nf as f32;
        for x in input.iter_mut() {
            let inp = *x;
            let mut acc = 0.0f32;
            for h in 0..self.filters.len() {
                let g_global = if h < self.gains.len() { self.gains[h] } else { 1.0 };
                let g_note = if h < note.profile.len() { note.profile[h] } else { 1.0 };
                let g = (g_global * g_note).max(0.0).min(2.0);
                let f = &mut self.filters[h];
                let y = f.b0 * inp + f.z1;
                f.z1 = (f.b1 * inp - f.a1 * y) + f.z2;
                f.z2 = f.b2 * inp - f.a2 * y;
                acc = acc + y * g;
            }
            acc = acc / nff;
            let y0 = inp * 0.75 + acc * 0.25;
            let y1 = tanh_ref(y0);
            *x = y1.max(-1.0).min(1.0);
        }
        let s = note.formant;
        if s.is_finite() && 1.0e-3 < s.abs() {
            let tilt = exp2_ref(s / 12.0);
            let ghi = sqrt_ref(tilt).max(0.5).min(2.0);
            let glo = sqrt_ref(1.0 / tilt).max(0.5).min(2.0);
            let nyq = self.sr * 0.5;
            let fc = 900.0f32.min(nyq * 0.9).max(80.0);
            let ca = exp_ref((b(NEG_TWO_PI) * fc) / self.sr);
            for x in input.iter_mut() {
                let inp = *x;
                self.lp = ca * self.lp + (1.0 - ca) * inp;
                let high = inp - self.lp;
                let y = self.lp * glo + high * ghi;
                let y1 = tanh_ref(y);
                *x = y1.max(-1.0).min(1.0);
            }
        }
    }

    fn process_buffer(&mut self, input: &mut [f32]) {
        if input.is_empty() || self.notes.is_empty() {
            return;
        }
        if !self.sr.is_finite() || self.sr <= 0.0 {
            return;
        }
        let n = input.len();
        let base = self.pos;
        let mut i = 0usize;
        let mut note_idx = 0usize;
        while i < n {
            let p = base + i as u64;
            while note_idx < self.notes.len() && self.notes[note_idx].end_sample <= p {
                note_idx += 1;
            }
            let blk_end = (p / 128 + 1) * 128;
            let (offset, seg_end, active) = if note_idx < self.notes.len() {
                let note = &self.notes[note_idx];
                if p >= note.start_sample {
                    let seg_start = (p / 128 * 128).max(note.start_sample);
                    (
                        self.offset_of(note, seg_start, blk_end),
                        blk_end.min(note.end_sample),
                        Some(note_idx),
                    )
                } else {
                    (0.0, blk_end.min(note.start_sample), None)
                }
            } else {
                (0.0, blk_end, None)
            };
            let e1 = seg_end.max(p + 1);
            let take = ((e1 - p) as usize).min(n - i);
            let to = i + take;
            self.shifter.process_block(&mut input[i..to], offset);
            if let Some(nidx) = active {
                if self.t_active != Some(nidx) {
                    self.t_active = Some(nidx);
                    self.filters.clear();
                    self.lp = 0.0;
                    self.last_f0 = 0.0;
                }
                self.apply_timbre(&mut input[i..to], nidx);
            }
            i = to;
        }
        self.pos = base + n as u64;
    }
}

fn lcg_samples(n: usize, seed: u32) -> Vec<f32> {
    let mut state = seed;
    let mut out = Vec::with_capacity(n);
    for _ in 0..n {
        state = state.wrapping_mul(1664525).wrapping_add(1013904223);
        let v = ((state >> 8) as f32) / ((1u32 << 24) as f32);
        out.push(v * 2.0 - 1.0);
    }
    out
}

fn to_bits_vec(xs: &[f32]) -> Vec<u32> {
    xs.iter().map(|x| x.to_bits()).collect()
}

#[test]
fn shifter_matches_reference_model() {
    for (sr, semis, seed) in [
        (6400.0f32, 12.0f32, 5u32),
        (48000.0, -7.3, 6),
        (44100.0, 3.5, 7),
        (8000.0, -12.0, 8),
    ] {
        let mut lib = MelodyShifter::new(sr.to_bits());
        let mut refm = ShifterRef::new(sr);
        let src = lcg_samples(700, seed);
        let mut lib_buf = to_bits_vec(&src);
        let mut ref_buf = src.clone();
        lib.process_block(&mut lib_buf, semis.to_bits());
        refm.process_block(&mut ref_buf, semis);
        assert_eq!(lib_buf, to_bits_vec(&ref_buf), "sr={sr} semis={semis}");
        // a second block carries the delay-line state forward
        let src2 = lcg_samples(300, seed ^ 0xABCD);
        let mut lib_buf2 = to_bits_vec(&src2);
        let mut ref_buf2 = src2.clone();
        lib.process_block(&mut lib_buf2, semis.to_bits());
        refm.process_block(&mut ref_buf2, semis);
        assert_eq!(lib_buf2, to_bits_vec(&ref_buf2));
    }
}

fn note_ref(sr: f32, row: [f32; 10], profile: Vec<f32>) -> NoteRef {
    let start = row[0].max(0.0);
    let end = row[1].max(0.0);
    let ss = (start * sr).ceil() as u64;
    let es = (end * sr).ceil() as u64;
    NoteRef {
        start,
        end,
        base: row[2],
        offset: row[3],
        center: row[4],
        mod_amount: row[5].max(0.0).min(2.0),
        drift_amount: row[6].max(0.0).min(2.0),
        stretch_s: row[7].max(0.5).min(2.0),
        stretch_e: row[8].max(0.5).min(2.0),
        formant: row[9],
        profile,
        start_sample: ss,
        end_sample: es.max(ss),
    }
}

#[test]
fn engine_matches_reference_model() {
    let sr = 8000.0f32;
    let rows: [[f32; 10]; 2] = [
        [0.001, 0.12, 69.0, 2.0, 0.5, 1.5, 0.8, 1.0, 1.3, 3.0],
        [0.12, 0.3, 64.0, -3.0, 0.0, 0.4, 1.2, 0.7, 1.0, -2.0],
    ];
    let flat = [1.0f32, 0.5, 2.0, 0.9, 1.1, 1.0];
    let gains = [1.5f32, 0.8, 1.2];

    let mut lib = MelodyEngine::new(sr.to_bits());
    lib.set_harmonic_gains(gains.iter().map(|g| g.to_bits()).collect());
    let col = |i: usize| -> Vec<u32> { rows.iter().map(|r| r[i].to_bits()).collect() };
    lib.set_notes(
        col(0),
        col(1),
        col(2),
        col(3),
        col(4),
        col(5),
        col(6),
        col(7),
        col(8),
        col(9),
        3,
        flat.iter().map(|g| g.to_bits()).collect(),
    );

    let mut refm = EngineRef::new(sr);
    refm.gains = gains.to_vec();
    refm.notes = vec![
        note_ref(sr, rows[0], flat[0..3].to_vec()),
        note_ref(sr, rows[1], flat[3..6].to_vec()),
    ];

    let src = lcg_samples(3000, 21);
    let mut lib_buf = to_bits_vec(&src);
    let mut ref_buf = src.clone();
    lib.process_buffer(&mut lib_buf);
    refm.process_buffer(&mut ref_buf);
    assert_eq!(lib_buf, to_bits_vec(&ref_buf));

    // a further call continues from the carried state
    let src2 = lcg_samples(500, 22);
    let mut lib_buf2 = to_bits_vec(&src2);
    let mut ref_buf2 = src2.clone();
    lib.process_buffer(&mut lib_buf2);
    refm.process_buffer(&mut ref_buf2);
    assert_eq!(lib_buf2, to_bits_vec(&ref_buf2));
}
