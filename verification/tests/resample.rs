use audio_timeline::frame::{Frame, GetSidesExtension};
use audio_timeline::resampling::{
    join_left_and_right_channels, resample, resample_frames, stretch, stretch_frames,
};
use audio_timeline::AudioError;

const ONE: u64 = 4294967296; // the Q32.32 value 1.0

#[test]
fn stretch_identity_keeps_length_and_values() {
    let seq: Vec<i64> = vec![100, -200, 300, -400, 500];
    let out = stretch(seq.clone(), ONE).unwrap();
    assert_eq!(out, seq);
}

#[test]
fn stretch_length_law_examples() {
    // factor 1.5: floor(4 * 1.5) = 6
    let seq: Vec<i64> = vec![10, 20, 30, 40];
    let out = stretch(seq, 3 * ONE / 2).unwrap();
    assert_eq!(out.len(), 6);
    // factor 0.5: floor(5 * 0.5) = 2
    let seq2: Vec<i64> = vec![1, 2, 3, 4, 5];
    let out2 = stretch(seq2, ONE / 2).unwrap();
    assert_eq!(out2.len(), 2);
    // factor 0.75 on 3 samples: floor(2.25) = 2
    let seq3: Vec<i64> = vec![8, 8, 8];
    let out3 = stretch(seq3, 3 * ONE / 4).unwrap();
    assert_eq!(out3.len(), 2);
}

#[test]
fn stretch_doubling_interpolates_midpoints() {
    let one = ONE as i64;
    let seq: Vec<i64> = vec![0, one];
    let out = stretch(seq, 2 * ONE).unwrap();
    // Walks the source at half-steps: 0, 0.5, 1, 1.5; past the end the
    // source reads as silence, so the last value fades toward zero.
    assert_eq!(out, vec![0, one / 2, one, one / 2]);
}

#[test]
fn stretch_rejects_short_input() {
    assert_eq!(stretch(vec![], ONE), Err(AudioError::TooFewSamples));
    assert_eq!(stretch(vec![7], ONE), Err(AudioError::TooFewSamples));
    let frames = vec![Frame::mono(1)];
    assert_eq!(stretch_frames(&frames, ONE), Err(AudioError::TooFewSamples));
}

#[test]
fn stretch_frames_stretches_channels_independently() {
    let one = ONE as i64;
    let frames = vec![Frame::new(0, one), Frame::new(one, 0)];
    let out = stretch_frames(&frames, 2 * ONE).unwrap();
    assert_eq!(out.len(), 4);
    assert_eq!(out[0], Frame::new(0, one));
    assert_eq!(out[1], Frame::new(one / 2, one / 2));
    assert_eq!(out[2], Frame::new(one, 0));
    assert_eq!(out[3], Frame::new(one / 2, 0));
}

#[test]
fn split_join_round_trip_is_exact() {
    let seq = vec![Frame::new(1, -1), Frame::new(2, -2), Frame::new(3, -3)];
    let (l, r) = seq.split_sides();
    let joined = join_left_and_right_channels(l, r);
    assert_eq!(joined, seq);
}

#[test]
fn join_truncates_to_shorter_side() {
    let joined = join_left_and_right_channels(vec![1, 2, 3], vec![9]);
    assert_eq!(joined, vec![Frame::new(1, 9)]);
}

#[test]
fn resample_is_a_stretch_by_the_rate_quotient() {
    let one = ONE as i64;
    let seq: Vec<i64> = vec![0, one];
    let out = resample(seq, 2, 4).unwrap();
    assert_eq!(out, vec![0, one / 2, one, one / 2]);
    // Identical rates change nothing.
    let same = resample(vec![5, 6, 7], 44100, 44100).unwrap();
    assert_eq!(same, vec![5, 6, 7]);
}

#[test]
fn resample_frames_matches_per_channel_resample() {
    let one = ONE as i64;
    let frames = vec![Frame::new(0, one), Frame::new(one, 0)];
    let out = resample_frames(frames, 2, 4).unwrap();
    assert_eq!(out.len(), 4);
    assert_eq!(out[1], Frame::new(one / 2, one / 2));
}
