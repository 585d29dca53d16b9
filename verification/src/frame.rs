//! `Frame` keeps one stereo sample — a Q32.32 amplitude for the left and the
//! right channel — and provides its elementwise and scalar arithmetic.

use vstd::prelude::*;
use crate::fixed::{scale_down, mul_down, div_down, half_down, scale_q32, mul_q32, div_q32,
    half_q32, lemma_scale_down_range, SCALE};
use crate::AudioError;

verus! {

/// One stereo sample: a left and a right Q32.32 amplitude.
#[derive(Clone, Copy, Debug, PartialEq, Eq, Structural)]
pub struct Frame {
    pub left: i64,
    pub right: i64,
}

/// Names one of the two channels of a [`Frame`].
#[derive(Clone, Copy, Debug, PartialEq, Eq, Structural)]
pub enum Side {
    Left,
    Right,
}

/// The elementwise sum of two frames, as the executable addition computes
/// it (exact whenever both channel sums fit in an `i64`).
pub open spec fn frame_add(a: Frame, b: Frame) -> Frame {
    Frame { left: (a.left + b.left) as i64, right: (a.right + b.right) as i64 }
}

/// `v` clamped into `[lo, hi]`.
pub open spec fn clamp_val(v: int, lo: int, hi: int) -> int {
    if v < lo {
        lo
    } else if v > hi {
        hi
    } else {
        v
    }
}

impl Frame {
    pub fn new(left: i64, right: i64) -> (r: Frame)
        ensures
            r.left == left,
            r.right == right,
    {
        Frame { left, right }
    }

    /// Both channels set to the same value.
    pub fn mono(val: i64) -> (r: Frame)
        ensures
            r.left == val,
            r.right == val,
    {
        Frame { left: val, right: val }
    }

    /// Applies `fun` to each channel independently.
    pub fn map<F: Fn(i64) -> i64>(self, fun: F) -> (r: Frame)
        requires
            call_requires(fun, (self.left,)),
            call_requires(fun, (self.right,)),
        ensures
            call_ensures(fun, (self.left,), r.left),
            call_ensures(fun, (self.right,), r.right),
    {
        let left = fun(self.left);
        let right = fun(self.right);
        Frame { left, right }
    }

    /// Applies `fun_left` to the left channel and `fun_right` to the right.
    pub fn map_left_right<F: Fn(i64) -> i64, G: Fn(i64) -> i64>(
        self,
        fun_left: F,
        fun_right: G,
    ) -> (r: Frame)
        requires
            call_requires(fun_left, (self.left,)),
            call_requires(fun_right, (self.right,)),
        ensures
            call_ensures(fun_left, (self.left,), r.left),
            call_ensures(fun_right, (self.right,), r.right),
    {
        let left = fun_left(self.left);
        let right = fun_right(self.right);
        Frame { left, right }
    }

    /// The louder of the two channels: a single-frame reduction.
    pub fn max(&self) -> (r: i64)
        ensures
            r == if self.left >= self.right { self.left } else { self.right },
    {
        if self.left >= self.right {
            self.left
        } else {
            self.right
        }
    }

    /// The quieter of the two channels: a single-frame reduction.
    pub fn min(&self) -> (r: i64)
        ensures
            r == if self.left <= self.right { self.left } else { self.right },
    {
        if self.left <= self.right {
            self.left
        } else {
            self.right
        }
    }

    /// Clamps each channel independently into `[min, max]`.
    pub fn clamp(&self, min: i64, max: i64) -> (r: Frame)
        requires
            min <= max,
        ensures
            r.left == clamp_val(self.left as int, min as int, max as int),
            r.right == clamp_val(self.right as int, min as int, max as int),
    {
        let left = if self.left < min {
            min
        } else if self.left > max {
            max
        } else {
            self.left
        };
        let right = if self.right < min {
            min
        } else if self.right > max {
            max
        } else {
            self.right
        };
        Frame { left, right }
    }

    /// Pans by `balance` in `[-SCALE, SCALE]` (the values `-1.0` to `1.0`):
    /// a negative balance scales the right channel by `1 + balance`, any
    /// other scales the left channel by `1 - balance`; the opposite channel
    /// is never touched.
    pub fn balance(self, balance: i64) -> (r: Frame)
        requires
            -(SCALE as int) <= balance <= SCALE as int,
        ensures
            balance < 0 ==> r.left == self.left && r.right as int == scale_down(
                self.right as int,
                SCALE as int + balance,
            ),
            balance >= 0 ==> r.right == self.right && r.left as int == scale_down(
                self.left as int,
                SCALE as int - balance,
            ),
    {
        if balance < 0 {
            let f: u64 = (SCALE as i64 + balance) as u64;
            proof {
                lemma_scale_down_range(self.right as int, f as int);
            }
            let right = scale_q32(self.right, f);
            Frame { left: self.left, right }
        } else {
            let f: u64 = (SCALE as i64 - balance) as u64;
            proof {
                lemma_scale_down_range(self.left as int, f as int);
            }
            let left = scale_q32(self.left, f);
            Frame { left, right: self.right }
        }
    }

    /// Reduces the frame to one value: the average of the two channels.
    pub fn to_mono(&self) -> (r: i64)
        requires
            i64::MIN <= self.left + self.right <= i64::MAX,
        ensures
            r as int == half_down(self.left + self.right),
    {
        half_q32(self.left + self.right)
    }

    /// Elementwise sum.
    pub fn add(self, rhs: Frame) -> (r: Frame)
        requires
            i64::MIN <= self.left + rhs.left <= i64::MAX,
            i64::MIN <= self.right + rhs.right <= i64::MAX,
        ensures
            r.left == self.left + rhs.left,
            r.right == self.right + rhs.right,
            r == frame_add(self, rhs),
    {
        Frame { left: self.left + rhs.left, right: self.right + rhs.right }
    }

    /// Adds the scalar to both channels.
    pub fn add_amp(self, rhs: i64) -> (r: Frame)
        requires
            i64::MIN <= self.left + rhs <= i64::MAX,
            i64::MIN <= self.right + rhs <= i64::MAX,
        ensures
            r.left == self.left + rhs,
            r.right == self.right + rhs,
    {
        Frame { left: self.left + rhs, right: self.right + rhs }
    }

    /// Elementwise difference.
    pub fn sub(self, rhs: Frame) -> (r: Frame)
        requires
            i64::MIN <= self.left - rhs.left <= i64::MAX,
            i64::MIN <= self.right - rhs.right <= i64::MAX,
        ensures
            r.left == self.left - rhs.left,
            r.right == self.right - rhs.right,
    {
        Frame { left: self.left - rhs.left, right: self.right - rhs.right }
    }

    /// Subtracts the scalar from both channels.
    pub fn sub_amp(self, rhs: i64) -> (r: Frame)
        requires
            i64::MIN <= self.left - rhs <= i64::MAX,
            i64::MIN <= self.right - rhs <= i64::MAX,
        ensures
            r.left == self.left - rhs,
            r.right == self.right - rhs,
    {
        Frame { left: self.left - rhs, right: self.right - rhs }
    }

    /// Elementwise fixed-point product; each channel is independent.
    pub fn mul(self, rhs: Frame) -> (r: Frame)
        requires
            i64::MIN <= mul_down(self.left as int, rhs.left as int) <= i64::MAX,
            i64::MIN <= mul_down(self.right as int, rhs.right as int) <= i64::MAX,
        ensures
            r.left as int == mul_down(self.left as int, rhs.left as int),
            r.right as int == mul_down(self.right as int, rhs.right as int),
    {
        Frame { left: mul_q32(self.left, rhs.left), right: mul_q32(self.right, rhs.right) }
    }

    /// Scales both channels by the scalar.
    pub fn mul_amp(self, rhs: i64) -> (r: Frame)
        requires
            i64::MIN <= mul_down(self.left as int, rhs as int) <= i64::MAX,
            i64::MIN <= mul_down(self.right as int, rhs as int) <= i64::MAX,
        ensures
            r.left as int == mul_down(self.left as int, rhs as int),
            r.right as int == mul_down(self.right as int, rhs as int),
    {
        Frame { left: mul_q32(self.left, rhs), right: mul_q32(self.right, rhs) }
    }

    /// Elementwise fixed-point quotient.
    pub fn div(self, rhs: Frame) -> (r: Frame)
        requires
            rhs.left != 0,
            rhs.right != 0,
            i64::MIN <= div_down(self.left as int, rhs.left as int) <= i64::MAX,
            i64::MIN <= div_down(self.right as int, rhs.right as int) <= i64::MAX,
        ensures
            r.left as int == div_down(self.left as int, rhs.left as int),
            r.right as int == div_down(self.right as int, rhs.right as int),
    {
        Frame { left: div_q32(self.left, rhs.left), right: div_q32(self.right, rhs.right) }
    }

    /// Divides both channels by the scalar.
    pub fn div_amp(self, rhs: i64) -> (r: Frame)
        requires
            rhs != 0,
            i64::MIN <= div_down(self.left as int, rhs as int) <= i64::MAX,
            i64::MIN <= div_down(self.right as int, rhs as int) <= i64::MAX,
        ensures
            r.left as int == div_down(self.left as int, rhs as int),
            r.right as int == div_down(self.right as int, rhs as int),
    {
        Frame { left: div_q32(self.left, rhs), right: div_q32(self.right, rhs) }
    }

    /// Negates both channels.
    pub fn neg(self) -> (r: Frame)
        requires
            self.left > i64::MIN,
            self.right > i64::MIN,
        ensures
            r.left == -self.left,
            r.right == -self.right,
    {
        Frame { left: -self.left, right: -self.right }
    }

    /// The channel that `side` names.
    pub fn side(&self, side: Side) -> (r: i64)
        ensures
            side is Left ==> r == self.left,
            side is Right ==> r == self.right,
    {
        match side {
            Side::Left => self.left,
            Side::Right => self.right,
        }
    }

    /// Positional channel access: index 0 is the left channel and index 1
    /// the right; any other index is an input-contract violation and is
    /// reported rather than aborting.
    pub fn channel(&self, index: usize) -> (r: Result<i64, AudioError>)
        ensures
            index == 0 ==> r == Ok::<i64, AudioError>(self.left),
            index == 1 ==> r == Ok::<i64, AudioError>(self.right),
            index > 1 ==> r == Err::<i64, AudioError>(AudioError::ChannelOutOfRange),
    {
        match index {
            0 => Ok(self.left),
            1 => Ok(self.right),
            _ => Err(AudioError::ChannelOutOfRange),
        }
    }
}

impl Default for Frame {
    /// The silent frame: zero on both channels.
    fn default() -> (r: Frame)
        ensures
            r.left == 0,
            r.right == 0,
    {
        Frame { left: 0, right: 0 }
    }
}

/// The left channel of each frame, in order.
pub open spec fn lefts(s: Seq<Frame>) -> Seq<i64> {
    s.map(|i: int, f: Frame| f.left)
}

/// The right channel of each frame, in order.
pub open spec fn rights(s: Seq<Frame>) -> Seq<i64> {
    s.map(|i: int, f: Frame| f.right)
}

/// Frames whose channels all lie within `[-bound, bound]`.
pub open spec fn frames_within(s: Seq<Frame>, bound: int) -> bool {
    forall|i: int|
        0 <= i < s.len() ==> -bound <= (#[trigger] s[i]).left <= bound && -bound <= s[i].right
            <= bound
}

/// Values that all lie within `[-bound, bound]`.
pub open spec fn chan_within(s: Seq<i64>, bound: int) -> bool {
    forall|i: int| 0 <= i < s.len() ==> -bound <= #[trigger] s[i] <= bound
}

/// A sequence of mono values, each carried onto both channels of a frame.
pub trait IntoFrames {
    /// The frames this value stands for.
    spec fn frames_view(&self) -> Seq<Frame>;

    /// Builds the stereo frames, one per element.
    fn as_frames(&self) -> (r: Vec<Frame>)
        ensures
            r@ == self.frames_view(),
    ;
}

impl IntoFrames for Vec<i64> {
    open spec fn frames_view(&self) -> Seq<Frame> {
        self@.map(|i: int, v: i64| Frame { left: v, right: v })
    }

    fn as_frames(&self) -> (r: Vec<Frame>)
    {
        let mut r: Vec<Frame> = Vec::new();
        let mut i: usize = 0;
        while i < self.len()
            invariant
                i <= self@.len(),
                r@ =~= self@.take(i as int).map(|k: int, v: i64| Frame { left: v, right: v }),
            decreases self@.len() - i,
        {
            r.push(Frame { left: self[i], right: self[i] });
            proof {
                assert(self@.take(i + 1).drop_last() =~= self@.take(i as int));
                assert(r@ =~= self@.take(i + 1).map(
                    |k: int, v: i64| Frame { left: v, right: v },
                ));
            }
            i += 1;
        }
        proof {
            assert(self@.take(self@.len() as int) =~= self@);
        }
        r
    }
}

/// Splits a sequence of stereo frames into its two channel sequences.
pub trait GetSidesExtension {
    /// The frames this value holds.
    spec fn frames_seq(&self) -> Seq<Frame>;

    /// The left channel of each frame, in order.
    fn left(&self) -> (r: Vec<i64>)
        ensures
            r@ == lefts(self.frames_seq()),
    ;

    /// The right channel of each frame, in order.
    fn right(&self) -> (r: Vec<i64>)
        ensures
            r@ == rights(self.frames_seq()),
    ;

    /// Both channel sequences, left first.
    fn split_sides(&self) -> (r: (Vec<i64>, Vec<i64>))
        ensures
            r.0@ == lefts(self.frames_seq()),
            r.1@ == rights(self.frames_seq()),
    ;
}

impl GetSidesExtension for Vec<Frame> {
    open spec fn frames_seq(&self) -> Seq<Frame> {
        self@
    }

    fn left(&self) -> (r: Vec<i64>)
    {
        let mut r: Vec<i64> = Vec::new();
        let mut i: usize = 0;
        while i < self.len()
            invariant
                i <= self@.len(),
                r@ =~= lefts(self@.take(i as int)),
            decreases self@.len() - i,
        {
            r.push(self[i].left);
            proof {
                assert(self@.take(i + 1).drop_last() =~= self@.take(i as int));
                assert(r@ =~= lefts(self@.take(i + 1)));
            }
            i += 1;
        }
        proof {
            assert(self@.take(self@.len() as int) =~= self@);
        }
        r
    }

    fn right(&self) -> (r: Vec<i64>)
    {
        let mut r: Vec<i64> = Vec::new();
        let mut i: usize = 0;
        while i < self.len()
            invariant
                i <= self@.len(),
                r@ =~= rights(self@.take(i as int)),
            decreases self@.len() - i,
        {
            r.push(self[i].right);
            proof {
                assert(self@.take(i + 1).drop_last() =~= self@.take(i as int));
                assert(r@ =~= rights(self@.take(i + 1)));
            }
            i += 1;
        }
        proof {
            assert(self@.take(self@.len() as int) =~= self@);
        }
        r
    }

    fn split_sides(&self) -> (r: (Vec<i64>, Vec<i64>))
    {
        (self.left(), self.right())
    }
}

/// Frame addition is commutative: summing two frames in either order gives
/// the same frame.
pub proof fn lemma_frame_add_comm(a: Frame, b: Frame)
    ensures
        frame_add(a, b) == frame_add(b, a),
{
}

/// Frame addition is associative: summing three frames groups either way,
/// whenever the channel sums stay within `i64`.
pub proof fn lemma_frame_add_assoc(a: Frame, b: Frame, c: Frame)
    requires
        i64::MIN <= a.left + b.left <= i64::MAX,
        i64::MIN <= a.right + b.right <= i64::MAX,
        i64::MIN <= b.left + c.left <= i64::MAX,
        i64::MIN <= b.right + c.right <= i64::MAX,
        i64::MIN <= a.left + b.left + c.left <= i64::MAX,
        i64::MIN <= a.right + b.right + c.right <= i64::MAX,
    ensures
        frame_add(frame_add(a, b), c) == frame_add(a, frame_add(b, c)),
{
}

/// Scaling a frame by the fixed-point one leaves it unchanged.
pub proof fn lemma_frame_mul_one(a: Frame)
    ensures
        mul_down(a.left as int, SCALE as int) == a.left,
        mul_down(a.right as int, SCALE as int) == a.right,
{
    lemma_mul_one_value(a.left as int);
    lemma_mul_one_value(a.right as int);
}

proof fn lemma_mul_one_value(v: int)
    ensures
        mul_down(v, SCALE as int) == v,
{
    let m = if v >= 0 { v } else { -v };
    vstd::arithmetic::div_mod::lemma_div_by_multiple(m, SCALE as int);
}

/// Adding the silent frame leaves a frame unchanged.
pub proof fn lemma_frame_add_zero(a: Frame, z: Frame)
    requires
        z.left == 0,
        z.right == 0,
    ensures
        frame_add(a, z) == a,
{
}

} // verus!
