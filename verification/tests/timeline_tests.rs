use audio_timeline::frame::Frame;
use audio_timeline::pitch::{pitch_factor, pitch_shift, Note};
use audio_timeline::timeline::{add_vecs_starting_from, beat_frames, join_tracks, render_track};
use audio_timeline::AudioError;

const ONE: i64 = 4294967296; // the Q32.32 value 1.0

#[test]
fn single_track_mix_is_identity() {
    let track = vec![Frame::new(1, 2), Frame::new(3, 4), Frame::new(-5, -6)];
    let out = join_tracks(vec![track.clone()]).unwrap();
    assert_eq!(out, track);
}

#[test]
fn mix_sums_elementwise_with_implicit_silence() {
    let a = vec![Frame::new(ONE, ONE), Frame::new(0, 0)];
    let b = vec![Frame::new(0, 0), Frame::new(ONE, ONE)];
    let out = join_tracks(vec![a, b]).unwrap();
    assert_eq!(out, vec![Frame::new(ONE, ONE), Frame::new(ONE, ONE)]);
}

#[test]
fn mix_length_is_the_longest_track() {
    let a = vec![Frame::mono(1)];
    let b = vec![Frame::mono(2), Frame::mono(3), Frame::mono(4)];
    let out = join_tracks(vec![a, b]).unwrap();
    assert_eq!(out.len(), 3);
    assert_eq!(out, vec![Frame::mono(3), Frame::mono(3), Frame::mono(4)]);
}

#[test]
fn mix_rejects_zero_tracks() {
    assert_eq!(join_tracks(vec![]), Err(AudioError::NoTracks));
}

#[test]
fn silent_padding_grows_the_buffer() {
    let clip = vec![Frame::new(ONE, ONE), Frame::new(ONE, ONE)];
    let out = add_vecs_starting_from(Vec::new(), 3, &clip);
    assert_eq!(
        out,
        vec![
            Frame::new(0, 0),
            Frame::new(0, 0),
            Frame::new(0, 0),
            Frame::new(ONE, ONE),
            Frame::new(ONE, ONE),
        ]
    );
}

#[test]
fn overlay_sums_into_existing_frames() {
    let base = vec![Frame::mono(10), Frame::mono(20), Frame::mono(30)];
    let clip = vec![Frame::mono(1), Frame::mono(2), Frame::mono(3)];
    let out = add_vecs_starting_from(base, 1, &clip);
    assert_eq!(
        out,
        vec![Frame::mono(10), Frame::mono(21), Frame::mono(32), Frame::mono(3)]
    );
}

#[test]
fn beat_frames_matches_the_tempo_formula() {
    // 44100 Hz, one second per beat, 120 bpm: 44100 * 1 * 60 / 120 = 22050.
    assert_eq!(beat_frames(44100, ONE as u64, 120), 22050);
    // Half a second per beat at 60 bpm: 44100 * 0.5 * 60 / 60 = 22050.
    assert_eq!(beat_frames(44100, (ONE / 2) as u64, 60), 22050);
}

#[test]
fn beat_frames_rounds_to_the_nearest_frame() {
    // One sample per second, 1.5 s per beat at 60 bpm spans 1.5 frames,
    // which rounds up to 2.
    assert_eq!(beat_frames(1, (3 * ONE / 2) as u64, 60), 2);
    // 1.25 frames rounds down to 1.
    assert_eq!(beat_frames(1, (5 * ONE / 4) as u64, 60), 1);
}

#[test]
fn render_track_with_no_notes_is_empty() {
    let sample = vec![Frame::mono(ONE), Frame::mono(ONE)];
    let notes: Vec<Option<Note>> = vec![None, None, None];
    let out = render_track(&sample, &notes, 100).unwrap();
    assert_eq!(out, vec![]);
}

#[test]
fn render_track_places_one_clip_at_its_slot() {
    let one = ONE;
    let sample = vec![Frame::new(one, one), Frame::new(one, one)];
    // A4 stretches by about 0.5946, so the two-frame sample becomes one frame.
    let notes: Vec<Option<Note>> = vec![None, Some(Note::new(9, 4))];
    let out = render_track(&sample, &notes, 3).unwrap();
    assert_eq!(out.len(), 4);
    assert_eq!(out[0], Frame::new(0, 0));
    assert_eq!(out[1], Frame::new(0, 0));
    assert_eq!(out[2], Frame::new(0, 0));
    assert_eq!(out[3], Frame::new(one, one));
}

#[test]
fn render_track_superposes_overlapping_clips() {
    let one = ONE;
    let sample = vec![Frame::new(one, one), Frame::new(one, one)];
    // Two adjacent slots with beat 0 overlap completely and sum.
    let notes: Vec<Option<Note>> = vec![Some(Note::new(9, 4)), Some(Note::new(9, 4))];
    let out = render_track(&sample, &notes, 0).unwrap();
    assert_eq!(out, vec![Frame::new(2 * one, 2 * one)]);
}

#[test]
fn render_track_rejects_short_sample_only_when_a_slot_needs_it() {
    let short = vec![Frame::mono(ONE)];
    let silent: Vec<Option<Note>> = vec![None];
    assert_eq!(render_track(&short, &silent, 10).unwrap(), vec![]);
    let active: Vec<Option<Note>> = vec![Some(Note::new(9, 4))];
    assert_eq!(render_track(&short, &active, 10), Err(AudioError::TooFewSamples));
}

#[test]
fn pitch_factor_for_a4_is_about_0_5946() {
    let f = pitch_factor(&Note::new(9, 4));
    assert_eq!(f, 2553846122);
    // Within 1e-4 of 0.5946 when read back as a real factor.
    let real_times_1e7 = (f as u128) * 10_000_000 / (ONE as u128);
    assert!(real_times_1e7 >= 5945000 && real_times_1e7 <= 5947000);
}

#[test]
fn pitch_shift_length_follows_the_factor() {
    let frames: Vec<Frame> = (0..1000).map(|_| Frame::mono(ONE / 4)).collect();
    let out = pitch_shift(&frames, &Note::new(9, 4)).unwrap();
    // floor(1000 * 0.59461...) = 594, which is floor(1000 * 0.5946).
    assert_eq!(out.len(), 594);
}

#[test]
fn pitch_factor_is_one_octave_per_twelve_semitones() {
    // A3 is one octave below A4, so its sample must stretch twice as far.
    let a4 = pitch_factor(&Note::new(9, 4));
    let a3 = pitch_factor(&Note::new(9, 3));
    assert_eq!(a3, 2 * a4);
}
