//! The linear-interpolation resampler: stretches or compresses a channel
//! sequence by a Q32.32 factor, walking the source at `1/factor` steps and
//! blending the two bracketing source samples at each output position.

use vstd::prelude::*;
use vstd::arithmetic::div_mod::{
    lemma_div_by_multiple, lemma_div_is_ordered, lemma_div_is_ordered_by_denominator,
    lemma_div_pos_is_pos, lemma_fundamental_div_mod, lemma_mod_multiples_basic,
};
use vstd::arithmetic::mul::{lemma_mul_inequality, lemma_mul_upper_bound};
use crate::fixed::{scale_down, scale_q32, lemma_scale_down_range, AMP_LIMIT, SCALE};
use crate::frame::{chan_within, frames_within, lefts, rights, Frame, GetSidesExtension};
use crate::AudioError;

verus! {

/// The source sample at `i`, with silence outside the sequence.
pub open spec fn chan_at(s: Seq<i64>, i: int) -> int {
    if 0 <= i < s.len() {
        s[i] as int
    } else {
        0
    }
}

/// How far the source position advances per output sample: `1/factor`,
/// itself in fixed point (so `SCALE * SCALE / factor`).
pub open spec fn stretch_step(factor: int) -> int {
    (SCALE as int * SCALE as int) / factor
}

/// The length of a stretched sequence: `n * factor` scaled down, the
/// fixed-point floor of the real product.
pub open spec fn stretch_len(n: int, factor: int) -> int {
    (n * factor) / (SCALE as int)
}

/// Straight-line blending of `v0` toward `v1` by `frac` (a fraction of
/// SCALE).
pub open spec fn lerp(v0: int, v1: int, frac: int) -> int {
    v0 + scale_down(v1 - v0, frac)
}

/// The stretched sequence's value at output position `j`: the source is
/// read at fractional index `j / factor`, linearly interpolating between
/// the two bracketing integer-indexed source samples.
pub open spec fn stretch_at(s: Seq<i64>, factor: int, j: int) -> int {
    let pos = j * stretch_step(factor);
    let idx = pos / (SCALE as int);
    let frac = pos % (SCALE as int);
    lerp(chan_at(s, idx), chan_at(s, idx + 1), frac)
}

/// Every in-range output position reads a source position below
/// `n * SCALE`, so the walk stays within `n` source samples.
proof fn lemma_pos_bound(n: int, factor: int, j: int)
    requires
        1 <= factor,
        0 <= n,
        0 <= j,
        j < stretch_len(n, factor),
    ensures
        j * stretch_step(factor) < n * (SCALE as int),
        0 <= j * stretch_step(factor),
{
    let s = SCALE as int;
    let lq = stretch_len(n, factor);
    let step = stretch_step(factor);
    lemma_fundamental_div_mod(n * factor, s);
    lemma_fundamental_div_mod(s * s, factor);
    assert(lq * s <= n * factor) by (nonlinear_arith)
        requires
            n * factor == s * lq + (n * factor) % s,
            0 <= (n * factor) % s,
    ;
    assert(step * factor <= s * s) by (nonlinear_arith)
        requires
            s * s == factor * step + (s * s) % factor,
            0 <= (s * s) % factor,
    ;
    lemma_div_pos_is_pos(n * factor, s);
    lemma_div_pos_is_pos(s * s, factor);
    vstd::arithmetic::mul::lemma_mul_nonnegative(n, factor);
    vstd::arithmetic::mul::lemma_mul_nonnegative(j, step);
    assert(j * step < n * s) by (nonlinear_arith)
        requires
            lq * s <= n * factor,
            step * factor <= s * s,
            0 <= j,
            j < lq,
            1 <= factor,
            0 < s,
            0 <= step,
            0 <= n,
    ;
}

/// Interpolation never leaves the band between its two source samples.
proof fn lemma_lerp_within(v0: int, v1: int, frac: int, bound: int)
    requires
        0 <= frac < SCALE,
        -bound <= v0 <= bound,
        -bound <= v1 <= bound,
    ensures
        -bound <= lerp(v0, v1, frac) <= bound,
        v1 >= v0 ==> v0 <= lerp(v0, v1, frac) <= v1,
        v1 < v0 ==> v1 <= lerp(v0, v1, frac) <= v0,
{
    lemma_scale_down_range(v1 - v0, frac);
}

/// Stretches one channel sequence by `factor`: the output has
/// `floor(len * factor)` samples, each linearly interpolated at source
/// position `j / factor`. A source of fewer than two samples cannot seed
/// the interpolation window and is rejected.
pub fn stretch(frames: Vec<i64>, factor: u64) -> (r: Result<Vec<i64>, AudioError>)
    requires
        1 <= factor,
        chan_within(frames@, AMP_LIMIT as int),
        stretch_len(frames@.len() as int, factor as int) <= usize::MAX,
    ensures
        r is Ok <==> frames@.len() >= 2,
        frames@.len() < 2 ==> r == Err::<Vec<i64>, AudioError>(AudioError::TooFewSamples),
        r matches Ok(out) ==> out@.len() == stretch_len(frames@.len() as int, factor as int)
            && (forall|j: int|
            0 <= j < out@.len() ==> #[trigger] out@[j] as int == stretch_at(
                frames@,
                factor as int,
                j,
            )) && chan_within(out@, AMP_LIMIT as int),
{
    if frames.len() < 2 {
        return Err(AudioError::TooFewSamples);
    }
    let n: usize = frames.len();
    let ghost ni = n as int;
    let ghost fi = factor as int;
    proof {
        vstd::arithmetic::mul::lemma_mul_nonnegative(ni, fi);
        lemma_div_pos_is_pos(ni * fi, SCALE as int);
        lemma_mul_upper_bound(ni, usize::MAX as int, fi, u64::MAX as int);
    }
    let out_len: usize = (((n as u128) * (factor as u128)) / (SCALE as u128)) as usize;
    let step: u128 = ((SCALE as u128) * (SCALE as u128)) / (factor as u128);
    proof {
        lemma_div_pos_is_pos(SCALE as int * SCALE as int, fi);
        lemma_div_is_ordered_by_denominator(SCALE as int * SCALE as int, 1, fi);
        assert(step as int == stretch_step(fi));
    }
    let mut out: Vec<i64> = Vec::new();
    let mut j: usize = 0;
    while j < out_len
        invariant
            j <= out_len,
            out@.len() == j,
            n == frames@.len(),
            2 <= n,
            1 <= factor,
            out_len as int == stretch_len(ni, fi),
            step as int == stretch_step(fi),
            ni == n as int,
            fi == factor as int,
            chan_within(frames@, AMP_LIMIT as int),
            chan_within(out@, AMP_LIMIT as int),
            forall|k: int|
                0 <= k < j ==> #[trigger] out@[k] as int == stretch_at(frames@, fi, k),
        decreases out_len - j,
    {
        proof {
            lemma_pos_bound(ni, fi, j as int);
            lemma_mul_upper_bound(ni, u64::MAX as int, SCALE as int, SCALE as int);
        }
        let pos: u128 = (j as u128) * step;
        let idx: u128 = pos / (SCALE as u128);
        let frac: u64 = (pos % (SCALE as u128)) as u64;
        proof {
            lemma_div_pos_is_pos(pos as int, SCALE as int);
        }
        let v0: i64 = if idx < n as u128 {
            frames[idx as usize]
        } else {
            0
        };
        let v1: i64 = if idx + 1 < n as u128 {
            frames[(idx + 1) as usize]
        } else {
            0
        };
        proof {
            assert(v0 as int == chan_at(frames@, pos as int / (SCALE as int)));
            assert(v1 as int == chan_at(frames@, pos as int / (SCALE as int) + 1));
            lemma_lerp_within(v0 as int, v1 as int, frac as int, AMP_LIMIT as int);
            lemma_scale_down_range(v1 - v0, frac as int);
        }
        let d: i64 = v1 - v0;
        let t: i64 = scale_q32(d, frac);
        let val: i64 = v0 + t;
        out.push(val);
        j += 1;
    }
    Ok(out)
}

/// Joins a left and a right channel sequence into stereo frames, pairing
/// positionally; if the lengths differ the result is truncated to the
/// shorter sequence.
pub fn join_left_and_right_channels(left: Vec<i64>, right: Vec<i64>) -> (r: Vec<Frame>)
    ensures
        r@.len() == if left@.len() <= right@.len() {
            left@.len()
        } else {
            right@.len()
        },
        forall|i: int|
            0 <= i < r@.len() ==> (#[trigger] r@[i]).left == left@[i] && r@[i].right == right@[i],
{
    let len: usize = if left.len() <= right.len() {
        left.len()
    } else {
        right.len()
    };
    let mut r: Vec<Frame> = Vec::new();
    let mut i: usize = 0;
    while i < len
        invariant
            i <= len,
            r@.len() == i,
            len <= left@.len(),
            len <= right@.len(),
            forall|k: int|
                0 <= k < i ==> (#[trigger] r@[k]).left == left@[k] && r@[k].right == right@[k],
        decreases len - i,
    {
        r.push(Frame { left: left[i], right: right[i] });
        i += 1;
    }
    r
}

/// Stretches a stereo sequence by `factor`: each channel is split off,
/// stretched independently, and the two results — always of equal length —
/// are rejoined without truncation.
pub fn stretch_frames(frames: &Vec<Frame>, factor: u64) -> (r: Result<Vec<Frame>, AudioError>)
    requires
        1 <= factor,
        frames_within(frames@, AMP_LIMIT as int),
        stretch_len(frames@.len() as int, factor as int) <= usize::MAX,
    ensures
        r is Ok <==> frames@.len() >= 2,
        frames@.len() < 2 ==> r == Err::<Vec<Frame>, AudioError>(AudioError::TooFewSamples),
        r matches Ok(out) ==> out@.len() == stretch_len(frames@.len() as int, factor as int)
            && (forall|j: int|
            0 <= j < out@.len() ==> (#[trigger] out@[j]).left as int == stretch_at(
                lefts(frames@),
                factor as int,
                j,
            ) && out@[j].right as int == stretch_at(rights(frames@), factor as int, j))
            && frames_within(out@, AMP_LIMIT as int),
{
    let (left, right) = frames.split_sides();
    proof {
        assert forall|i: int| 0 <= i < lefts(frames@).len() implies -(AMP_LIMIT as int) <= #[trigger] lefts(
            frames@,
        )[i] <= AMP_LIMIT as int by {
            assert(lefts(frames@)[i] == frames@[i].left);
        }
        assert forall|i: int| 0 <= i < rights(frames@).len() implies -(AMP_LIMIT as int)
            <= #[trigger] rights(frames@)[i] <= AMP_LIMIT as int by {
            assert(rights(frames@)[i] == frames@[i].right);
        }
        assert(chan_within(lefts(frames@), AMP_LIMIT as int));
        assert(chan_within(rights(frames@), AMP_LIMIT as int));
    }
    let left_stretched = match stretch(left, factor) {
        Ok(v) => v,
        Err(e) => {
            return Err(e);
        },
    };
    let right_stretched = match stretch(right, factor) {
        Ok(v) => v,
        Err(e) => {
            return Err(e);
        },
    };
    Ok(join_left_and_right_channels(left_stretched, right_stretched))
}

/// The stretch factor that converts a sequence from `old_rate` to
/// `new_rate`: the fixed-point quotient `new_rate / old_rate`.
pub open spec fn rate_factor(old_rate: int, new_rate: int) -> int {
    (new_rate * (SCALE as int)) / old_rate
}

proof fn lemma_rate_factor_at_least_one(old_rate: int, new_rate: int)
    requires
        1 <= old_rate < SCALE,
        1 <= new_rate,
    ensures
        1 <= rate_factor(old_rate, new_rate),
{
    let s = SCALE as int;
    lemma_mul_inequality(1, new_rate, s);
    lemma_div_is_ordered(s, new_rate * s, old_rate);
    lemma_div_is_ordered_by_denominator(s, old_rate, s);
    lemma_div_by_multiple(1, s);
}

/// Resamples one channel sequence from `old_sample_rate` to
/// `new_sample_rate`: a stretch by the rate quotient, changing the sample
/// count so the same duration is covered at the new rate.
pub fn resample(frames: Vec<i64>, old_sample_rate: u32, new_sample_rate: u32) -> (r: Result<
    Vec<i64>,
    AudioError,
>)
    requires
        1 <= old_sample_rate,
        1 <= new_sample_rate,
        chan_within(frames@, AMP_LIMIT as int),
        stretch_len(
            frames@.len() as int,
            rate_factor(old_sample_rate as int, new_sample_rate as int),
        ) <= usize::MAX,
    ensures
        r is Ok <==> frames@.len() >= 2,
        frames@.len() < 2 ==> r == Err::<Vec<i64>, AudioError>(AudioError::TooFewSamples),
        r matches Ok(out) ==> out@.len() == stretch_len(
            frames@.len() as int,
            rate_factor(old_sample_rate as int, new_sample_rate as int),
        ) && (forall|j: int|
            0 <= j < out@.len() ==> #[trigger] out@[j] as int == stretch_at(
                frames@,
                rate_factor(old_sample_rate as int, new_sample_rate as int),
                j,
            )) && chan_within(out@, AMP_LIMIT as int),
{
    proof {
        lemma_mul_upper_bound(new_sample_rate as int, u32::MAX as int, SCALE as int, SCALE as int);
        lemma_rate_factor_at_least_one(old_sample_rate as int, new_sample_rate as int);
    }
    let factor: u64 = ((new_sample_rate as u64) * SCALE) / (old_sample_rate as u64);
    stretch(frames, factor)
}

/// Resamples a stereo sequence: each channel independently, then rejoined.
pub fn resample_frames(frames: Vec<Frame>, old_sample_rate: u32, new_sample_rate: u32) -> (r:
    Result<Vec<Frame>, AudioError>)
    requires
        1 <= old_sample_rate,
        1 <= new_sample_rate,
        frames_within(frames@, AMP_LIMIT as int),
        stretch_len(
            frames@.len() as int,
            rate_factor(old_sample_rate as int, new_sample_rate as int),
        ) <= usize::MAX,
    ensures
        r is Ok <==> frames@.len() >= 2,
        frames@.len() < 2 ==> r == Err::<Vec<Frame>, AudioError>(AudioError::TooFewSamples),
        r matches Ok(out) ==> out@.len() == stretch_len(
            frames@.len() as int,
            rate_factor(old_sample_rate as int, new_sample_rate as int),
        ) && (forall|j: int|
            0 <= j < out@.len() ==> #[trigger] out@[j].left as int == stretch_at(
                lefts(frames@),
                rate_factor(old_sample_rate as int, new_sample_rate as int),
                j,
            ) && out@[j].right as int == stretch_at(
                rights(frames@),
                rate_factor(old_sample_rate as int, new_sample_rate as int),
                j,
            )) && frames_within(out@, AMP_LIMIT as int),
{
    proof {
        lemma_mul_upper_bound(new_sample_rate as int, u32::MAX as int, SCALE as int, SCALE as int);
        lemma_rate_factor_at_least_one(old_sample_rate as int, new_sample_rate as int);
    }
    let factor: u64 = ((new_sample_rate as u64) * SCALE) / (old_sample_rate as u64);
    stretch_frames(&frames, factor)
}

/// Splitting a stereo sequence into its channels and rejoining them loses
/// nothing: any sequence paired positionally from `lefts(s)` and
/// `rights(s)` — as the channel join builds it — is `s` itself.
pub proof fn lemma_split_join_round_trip(s: Seq<Frame>, joined: Seq<Frame>)
    requires
        joined.len() == s.len(),
        forall|i: int|
            0 <= i < joined.len() ==> (#[trigger] joined[i]).left == lefts(s)[i]
                && joined[i].right == rights(s)[i],
    ensures
        joined =~= s,
{
    assert forall|i: int| 0 <= i < s.len() implies joined[i] == s[i] by {
        assert(joined[i].left == s[i].left);
        assert(joined[i].right == s[i].right);
    }
}

/// Stretching by the fixed-point one is the identity: the output has the
/// source's length and repeats it sample for sample.
pub proof fn lemma_stretch_identity(s: Seq<i64>)
    ensures
        stretch_len(s.len() as int, SCALE as int) == s.len(),
        forall|j: int| 0 <= j < s.len() ==> #[trigger] stretch_at(s, SCALE as int, j) == s[j],
{
    let sc = SCALE as int;
    lemma_div_by_multiple(s.len() as int, sc);
    lemma_div_by_multiple(sc, sc);
    assert forall|j: int| 0 <= j < s.len() implies #[trigger] stretch_at(s, sc, j) == s[j] by {
        lemma_div_by_multiple(j, sc);
        lemma_mod_multiples_basic(j, sc);
        assert(j * stretch_step(sc) == j * sc);
        assert(scale_down(chan_at(s, j + 1) - chan_at(s, j), 0) == 0);
    }
}

} // verus!
