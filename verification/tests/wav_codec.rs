use audio_timeline::frame::Frame;
use audio_timeline::wav::{
    amp_from_int, frames_from_interleaved, interleave_quantized, quantize_amp, quantize_frame,
};

const ONE: i64 = 4294967296; // the Q32.32 value 1.0

#[test]
fn writeout_clamps_before_quantizing() {
    // A frame at (1.5, -1.5) written at bit depth 16 is clamped to
    // (1.0, -1.0) and yields the extreme representable sample values.
    let f = Frame::new(3 * ONE / 2, -(3 * ONE / 2));
    let (l, r) = quantize_frame(&f, 16);
    assert_eq!(l, 32767);
    assert_eq!(r, -32768);
}

#[test]
fn quantize_scales_by_the_bit_depth() {
    assert_eq!(quantize_amp(ONE / 2, 16), 16384);
    assert_eq!(quantize_amp(-(ONE / 2), 16), -16384);
    assert_eq!(quantize_amp(0, 16), 0);
    assert_eq!(quantize_amp(ONE / 2, 8), 64);
    // In-range values quantize without saturating.
    assert_eq!(quantize_amp(ONE / 4, 32), 1 << 29);
}

#[test]
fn quantize_rounds_to_the_nearest_step() {
    // 0.75 of one 16-bit step rounds up to one step, not down to zero.
    assert_eq!(quantize_amp(98304, 16), 1);
    assert_eq!(quantize_amp(-98304, 16), -1);
    // 0.25 of a step rounds down to zero.
    assert_eq!(quantize_amp(32768, 16), 0);
    // A tie at half a step rounds away from zero.
    assert_eq!(quantize_amp(65536, 16), 1);
    assert_eq!(quantize_amp(-65536, 16), -1);
}

#[test]
fn amp_from_int_inverts_the_write_scale() {
    // A full-scale negative 16-bit sample is exactly -1.0.
    assert_eq!(amp_from_int(-32768, 16), -ONE);
    assert_eq!(amp_from_int(16384, 16), ONE / 2);
    assert_eq!(amp_from_int(1, 16), 1 << 17);
    // Reading back what was written returns the quantized amplitude.
    let q = quantize_amp(ONE / 3, 16);
    let back = amp_from_int(q, 16);
    assert!((ONE / 3 - back).abs() < (1 << 17));
}

#[test]
fn interleaved_stereo_pairs_up() {
    let samples: Vec<i64> = vec![1, 2, 3, 4, 5];
    let frames = frames_from_interleaved(&samples, 2);
    assert_eq!(
        frames,
        vec![Frame::new(1, 2), Frame::new(3, 4), Frame::new(5, 5)]
    );
}

#[test]
fn interleaved_mono_doubles_each_sample() {
    let samples: Vec<i64> = vec![7, 8];
    let frames = frames_from_interleaved(&samples, 1);
    assert_eq!(frames, vec![Frame::mono(7), Frame::mono(8)]);
}

#[test]
fn interleaved_many_channels_keep_the_first() {
    let samples: Vec<i64> = vec![1, 2, 3, 4, 5];
    let frames = frames_from_interleaved(&samples, 3);
    // The full group of three keeps its first word; the trailing group of
    // exactly two words still reads as a stereo pair.
    assert_eq!(frames, vec![Frame::mono(1), Frame::new(4, 5)]);
}

#[test]
fn interleave_quantized_writes_left_then_right() {
    let frames = vec![Frame::new(ONE, -ONE), Frame::new(0, ONE / 2)];
    let out = interleave_quantized(&frames, 16);
    assert_eq!(out, vec![32767, -32768, 0, 16384]);
}
