//! An offline audio timeline engine over fixed-point stereo samples.
//!
//! Amplitudes are Q32.32 fixed-point numbers held in `i64` (the value `1.0`
//! is [`fixed::SCALE`]); stretch factors and rate ratios are nonnegative
//! Q32.32 numbers held in `u64`. The crate covers the stereo [`frame::Frame`]
//! and its arithmetic, channel splitting and joining, a linear-interpolation
//! resampler, pitch-shifting by time-stretch, a per-track timeline renderer,
//! and a mixer that sums track buffers into one final buffer.

use vstd::prelude::*;

pub mod fixed;
pub mod frame;
pub mod pitch;
pub mod resampling;
pub mod score;
pub mod timeline;
pub mod wav;

verus! {

/// The input-contract violations that the engine reports instead of
/// producing garbage: the resampler needs at least two source samples to
/// seed its interpolation window, the mixer needs at least one track, and a
/// frame has exactly two positional channels.
#[derive(Clone, Copy, Debug, PartialEq, Eq, Structural)]
pub enum AudioError {
    /// The resampler was handed fewer than two source samples.
    TooFewSamples,
    /// The mixer was handed an empty list of tracks.
    NoTracks,
    /// A frame channel was addressed by an index other than 0 or 1.
    ChannelOutOfRange,
}

impl AudioError {
    /// A short description of the violated input contract.
    pub fn describe(&self) -> (msg: &'static str)
        ensures
            msg@.len() > 0,
    {
        proof {
            reveal_strlit("the resampler needs at least two source samples");
            reveal_strlit("the mixer needs at least one track");
            reveal_strlit("a frame channel index must be 0 or 1");
        }
        match self {
            AudioError::TooFewSamples => "the resampler needs at least two source samples",
            AudioError::NoTracks => "the mixer needs at least one track",
            AudioError::ChannelOutOfRange => "a frame channel index must be 0 or 1",
        }
    }
}

} // verus!
