use audio_timeline::frame::{Frame, GetSidesExtension, IntoFrames, Side};
use audio_timeline::AudioError;

const ONE: i64 = 4294967296; // the Q32.32 value 1.0

#[test]
fn new_and_mono() {
    let f = Frame::new(3, -4);
    assert_eq!(f.left, 3);
    assert_eq!(f.right, -4);
    let m = Frame::mono(7);
    assert_eq!(m.left, 7);
    assert_eq!(m.right, 7);
}

#[test]
fn add_commutes() {
    let a = Frame::new(10, -20);
    let b = Frame::new(5, 8);
    let ab = a.add(b);
    let ba = b.add(a);
    assert_eq!(ab, ba);
    assert_eq!(ab, Frame::new(15, -12));
}

#[test]
fn add_associates() {
    let a = Frame::new(1, 2);
    let b = Frame::new(30, 40);
    let c = Frame::new(500, 600);
    assert_eq!(a.add(b).add(c), a.add(b.add(c)));
}

#[test]
fn mul_by_one_is_identity() {
    let a = Frame::new(123456789, -987654321);
    assert_eq!(a.mul_amp(ONE), a);
    assert_eq!(a.mul(Frame::mono(ONE)), a);
}

#[test]
fn add_zero_is_identity() {
    let a = Frame::new(-55, 44);
    assert_eq!(a.add(Frame::new(0, 0)), a);
    assert_eq!(a.add(Frame::default()), a);
}

#[test]
fn sub_and_neg() {
    let a = Frame::new(10, 4);
    let b = Frame::new(3, 9);
    assert_eq!(a.sub(b), Frame::new(7, -5));
    assert_eq!(a.neg(), Frame::new(-10, -4));
    assert_eq!(a.sub_amp(1), Frame::new(9, 3));
    assert_eq!(a.add_amp(1), Frame::new(11, 5));
}

#[test]
fn mul_fixed_point_halves() {
    let half = ONE / 2;
    let a = Frame::new(ONE, -ONE);
    let r = a.mul_amp(half);
    assert_eq!(r, Frame::new(half, -half));
}

#[test]
fn div_fixed_point() {
    let a = Frame::new(ONE, -ONE);
    let r = a.div_amp(2 * ONE);
    assert_eq!(r, Frame::new(ONE / 2, -(ONE / 2)));
    let e = a.div(Frame::new(ONE, ONE));
    assert_eq!(e, a);
}

#[test]
fn max_min_are_single_frame_reductions() {
    let a = Frame::new(3, 9);
    assert_eq!(a.max(), 9);
    assert_eq!(a.min(), 3);
}

#[test]
fn clamp_clamps_each_channel() {
    let a = Frame::new(10, -10);
    assert_eq!(a.clamp(-5, 5), Frame::new(5, -5));
    assert_eq!(a.clamp(-20, 20), a);
}

#[test]
fn balance_attenuates_one_channel_only() {
    let a = Frame::new(ONE, ONE);
    // Full left: the right channel is scaled by 1 + (-1) = 0.
    assert_eq!(a.balance(-ONE), Frame::new(ONE, 0));
    // Full right: the left channel is scaled by 1 - 1 = 0.
    assert_eq!(a.balance(ONE), Frame::new(0, ONE));
    // Centered: nothing is touched.
    assert_eq!(a.balance(0), a);
}

#[test]
fn to_mono_averages() {
    assert_eq!(Frame::new(10, 20).to_mono(), 15);
    assert_eq!(Frame::new(-10, -20).to_mono(), -15);
}

#[test]
fn map_applies_to_both_channels() {
    let a = Frame::new(1, 2);
    assert_eq!(a.map(|x| x + 1), Frame::new(2, 3));
    assert_eq!(a.map_left_right(|x| x + 1, |x| x - 1), Frame::new(2, 1));
}

#[test]
fn side_and_channel_access() {
    let a = Frame::new(5, 6);
    assert_eq!(a.side(Side::Left), 5);
    assert_eq!(a.side(Side::Right), 6);
    assert_eq!(a.channel(0), Ok(5));
    assert_eq!(a.channel(1), Ok(6));
    assert_eq!(a.channel(2), Err(AudioError::ChannelOutOfRange));
    assert!(AudioError::ChannelOutOfRange.describe().len() > 0);
}

#[test]
fn as_frames_carries_mono_values() {
    let v: Vec<i64> = vec![1, 2, 3];
    let frames = v.as_frames();
    assert_eq!(frames, vec![Frame::mono(1), Frame::mono(2), Frame::mono(3)]);
}

#[test]
fn split_sides_extracts_channels() {
    let v = vec![Frame::new(1, 2), Frame::new(3, 4)];
    let (l, r) = v.split_sides();
    assert_eq!(l, vec![1, 3]);
    assert_eq!(r, vec![2, 4]);
    assert_eq!(v.left(), vec![1, 3]);
    assert_eq!(v.right(), vec![2, 4]);
}
