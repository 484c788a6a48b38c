use melody_dsp::shifter::MelodyShifter;

fn bits(x: f32) -> u32 {
    x.to_bits()
}

fn to_bits_vec(xs: &[f32]) -> Vec<u32> {
    xs.iter().map(|x| x.to_bits()).collect()
}

/// A tiny deterministic sample generator for test signals in [-1, 1].
fn lcg_samples(n: usize, seed: u32) -> Vec<f32> {
    let mut state = seed;
    let mut out = Vec::with_capacity(n);
    for _ in 0..n {
        state = state.wrapping_mul(1664525).wrapping_add(1013904223);
        let v = ((state >> 8) as f32) / ((1u32 << 24) as f32);
        out.push(v * 2.0 - 1.0);
    }
    out
}

#[test]
fn delay_len_is_clamped_40ms() {
    assert_eq!(MelodyShifter::new(bits(4000.0)).delay_len(), 256);
    assert_eq!(MelodyShifter::new(bits(1.0)).delay_len(), 256);
    assert_eq!(MelodyShifter::new(bits(192000.0)).delay_len(), 7680);
    assert_eq!(MelodyShifter::new(bits(48000.0)).delay_len(), 1920);
    assert_eq!(MelodyShifter::new(bits(6400.0)).delay_len(), 256);
    assert_eq!(MelodyShifter::new(bits(1.0e9)).delay_len(), 16384);
    assert_eq!(MelodyShifter::new(bits(f32::NAN)).delay_len(), 256);
}

#[test]
fn sample_rate_is_kept() {
    let s = MelodyShifter::new(bits(44100.0));
    assert_eq!(f32::from_bits(s.sample_rate()), 44100.0);
}

#[test]
fn tiny_offsets_bypass_exactly() {
    let mut s = MelodyShifter::new(bits(48000.0));
    let src = lcg_samples(777, 1);
    let mut buf = to_bits_vec(&src);
    let before = buf.clone();
    s.process_block(&mut buf, bits(0.0005));
    assert_eq!(buf, before);
    s.process_block(&mut buf, bits(0.0));
    assert_eq!(buf, before);
    s.process_block(&mut buf, bits(-0.0009));
    assert_eq!(buf, before);
}

#[test]
fn large_offset_changes_the_signal() {
    let mut s = MelodyShifter::new(bits(6400.0));
    let src = vec![0.5f32; 64];
    let mut buf = to_bits_vec(&src);
    s.process_block(&mut buf, bits(12.0));
    // the first output reads the two taps of a still almost-empty delay
    // buffer, so it is nearly silent instead of the input's 0.5
    assert!(f32::from_bits(buf[0]).abs() < 1.0e-6);
    assert_ne!(buf, to_bits_vec(&src));
}

#[test]
fn empty_buffer_is_a_noop() {
    let mut s = MelodyShifter::new(bits(48000.0));
    let mut buf: Vec<u32> = Vec::new();
    s.process_block(&mut buf, bits(7.0));
    assert!(buf.is_empty());
}

#[test]
fn shifting_silence_stays_silent() {
    let mut s = MelodyShifter::new(bits(48000.0));
    let mut buf = vec![0u32; 4096];
    s.process_block(&mut buf, bits(12.0));
    for &v in buf.iter() {
        assert_eq!(f32::from_bits(v), 0.0);
    }
}
