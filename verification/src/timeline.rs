//! The timeline renderer and mixer: places pitch-shifted clips at
//! beat-quantized offsets, summing them into a growing master buffer, and
//! mixes the per-track buffers into one final sequence.

use vstd::prelude::*;
use vstd::arithmetic::div_mod::{lemma_div_by_multiple, lemma_div_is_ordered};
use vstd::arithmetic::mul::{lemma_mul_inequality, lemma_mul_upper_bound};
use crate::fixed::{AMP_LIMIT, SCALE};
use crate::frame::{frames_within, lefts, rights, Frame};
use crate::pitch::{pitch_factor_spec, pitch_shift, Note, FACTOR_MAX};
use crate::resampling::{stretch_at, stretch_len};
use crate::AudioError;

verus! {

/// The left channel of a buffer at `i`, with silence past its end.
pub open spec fn buf_left_at(t: Seq<Frame>, i: int) -> int {
    if 0 <= i < t.len() {
        t[i].left as int
    } else {
        0
    }
}

/// The right channel of a buffer at `i`, with silence past its end.
pub open spec fn buf_right_at(t: Seq<Frame>, i: int) -> int {
    if 0 <= i < t.len() {
        t[i].right as int
    } else {
        0
    }
}

/// The length after overlaying a clip of length `clip_len` at `start`
/// onto a buffer of length `base_len`: the buffer only ever grows.
pub open spec fn overlay_len(base_len: int, start: int, clip_len: int) -> int {
    if base_len >= start + clip_len {
        base_len
    } else {
        start + clip_len
    }
}

/// The left channel after the overlay: the base value plus, inside the
/// clip's window, the clip value — an additive overlay, never an
/// overwrite.
pub open spec fn overlay_left_at(base: Seq<Frame>, start: int, other: Seq<Frame>, i: int) -> int {
    buf_left_at(base, i) + if start <= i < start + other.len() {
        other[i - start].left as int
    } else {
        0
    }
}

/// The right channel after the overlay.
pub open spec fn overlay_right_at(base: Seq<Frame>, start: int, other: Seq<Frame>, i: int) -> int {
    buf_right_at(base, i) + if start <= i < start + other.len() {
        other[i - start].right as int
    } else {
        0
    }
}

/// Adds `other` into `base` starting at index `start`: the base grows with
/// silent frames up to `start + other.len()` if needed, and every frame of
/// `other` is summed into place, so overlapping clips superpose.
pub fn add_vecs_starting_from(base: Vec<Frame>, start: usize, other: &Vec<Frame>) -> (r: Vec<
    Frame,
>)
    requires
        start + other@.len() <= usize::MAX,
        forall|i: int|
            0 <= i < overlay_len(base@.len() as int, start as int, other@.len() as int)
                ==> i64::MIN <= #[trigger] overlay_left_at(base@, start as int, other@, i)
                <= i64::MAX && i64::MIN <= overlay_right_at(base@, start as int, other@, i)
                <= i64::MAX,
    ensures
        r@.len() == overlay_len(base@.len() as int, start as int, other@.len() as int),
        forall|i: int|
            0 <= i < r@.len() ==> (#[trigger] r@[i]).left as int == overlay_left_at(
                base@,
                start as int,
                other@,
                i,
            ) && r@[i].right as int == overlay_right_at(base@, start as int, other@, i),
{
    let end: usize = start + other.len();
    let new_len: usize = if base.len() >= end {
        base.len()
    } else {
        end
    };
    let mut r: Vec<Frame> = Vec::new();
    let mut i: usize = 0;
    while i < new_len
        invariant
            i <= new_len,
            r@.len() == i,
            end == start + other@.len(),
            new_len as int == overlay_len(base@.len() as int, start as int, other@.len() as int),
            forall|k: int|
                0 <= k < overlay_len(base@.len() as int, start as int, other@.len() as int)
                    ==> i64::MIN <= #[trigger] overlay_left_at(base@, start as int, other@, k)
                    <= i64::MAX && i64::MIN <= overlay_right_at(base@, start as int, other@, k)
                    <= i64::MAX,
            forall|k: int|
                0 <= k < i ==> (#[trigger] r@[k]).left as int == overlay_left_at(
                    base@,
                    start as int,
                    other@,
                    k,
                ) && r@[k].right as int == overlay_right_at(base@, start as int, other@, k),
        decreases new_len - i,
    {
        let b: Frame = if i < base.len() {
            base[i]
        } else {
            Frame::new(0, 0)
        };
        let o: Frame = if start <= i && i < end {
            other[i - start]
        } else {
            Frame::new(0, 0)
        };
        proof {
            assert(b.left + o.left == overlay_left_at(base@, start as int, other@, i as int));
            assert(b.right + o.right == overlay_right_at(base@, start as int, other@, i as int));
        }
        let v = b.add(o);
        r.push(v);
        i += 1;
    }
    r
}

/// What slot `t` contributes to output index `i` on the left channel:
/// inside the placed clip's window, the pitch-shifted sample; elsewhere
/// silence.
pub open spec fn slot_left_at(
    sample: Seq<Frame>,
    slot: Option<Note>,
    beat: int,
    t: int,
    i: int,
) -> int {
    match slot {
        None => 0,
        Some(n) => {
            let f = pitch_factor_spec(n);
            let start = t * beat;
            if start <= i < start + stretch_len(sample.len() as int, f) {
                stretch_at(lefts(sample), f, i - start)
            } else {
                0
            }
        },
    }
}

/// What slot `t` contributes to output index `i` on the right channel.
pub open spec fn slot_right_at(
    sample: Seq<Frame>,
    slot: Option<Note>,
    beat: int,
    t: int,
    i: int,
) -> int {
    match slot {
        None => 0,
        Some(n) => {
            let f = pitch_factor_spec(n);
            let start = t * beat;
            if start <= i < start + stretch_len(sample.len() as int, f) {
                stretch_at(rights(sample), f, i - start)
            } else {
                0
            }
        },
    }
}

/// The left channel of the master buffer after the first `k` slots: the
/// sum of every slot's contribution at `i`.
pub open spec fn rendered_left_at(
    sample: Seq<Frame>,
    notes: Seq<Option<Note>>,
    beat: int,
    k: int,
    i: int,
) -> int
    decreases k,
{
    if k <= 0 {
        0
    } else {
        rendered_left_at(sample, notes, beat, k - 1, i) + slot_left_at(
            sample,
            notes[k - 1],
            beat,
            k - 1,
            i,
        )
    }
}

/// The right channel of the master buffer after the first `k` slots.
pub open spec fn rendered_right_at(
    sample: Seq<Frame>,
    notes: Seq<Option<Note>>,
    beat: int,
    k: int,
    i: int,
) -> int
    decreases k,
{
    if k <= 0 {
        0
    } else {
        rendered_right_at(sample, notes, beat, k - 1, i) + slot_right_at(
            sample,
            notes[k - 1],
            beat,
            k - 1,
            i,
        )
    }
}

/// The master buffer's length after the first `k` slots: the highest clip
/// end placed so far, or zero with no active slot yet.
pub open spec fn rendered_len(
    sample: Seq<Frame>,
    notes: Seq<Option<Note>>,
    beat: int,
    k: int,
) -> int
    decreases k,
{
    if k <= 0 {
        0
    } else {
        let prev = rendered_len(sample, notes, beat, k - 1);
        match notes[k - 1] {
            None => prev,
            Some(n) => {
                let end = (k - 1) * beat + stretch_len(
                    sample.len() as int,
                    pitch_factor_spec(n),
                );
                if end > prev {
                    end
                } else {
                    prev
                }
            },
        }
    }
}

/// Some slot holds a note.
pub open spec fn has_active_slot(notes: Seq<Option<Note>>) -> bool {
    exists|t: int| 0 <= t < notes.len() && notes[t] is Some
}

/// Every held note is a valid one.
pub open spec fn notes_wf(notes: Seq<Option<Note>>) -> bool {
    forall|t: int|
        0 <= t < notes.len() ==> ((#[trigger] notes[t]) matches Some(n) ==> n.wf())
}

/// The buffer never grows shorter as slots are placed.
proof fn lemma_rendered_len_monotone(
    sample: Seq<Frame>,
    notes: Seq<Option<Note>>,
    beat: int,
    k: int,
)
    requires
        0 <= k,
    ensures
        rendered_len(sample, notes, beat, k) <= rendered_len(sample, notes, beat, k + 1),
        0 <= rendered_len(sample, notes, beat, k),
    decreases k,
{
    if k > 0 {
        lemma_rendered_len_monotone(sample, notes, beat, k - 1);
    }
}

/// Beyond the buffer's length every rendered value is silence.
proof fn lemma_rendered_zero_beyond(
    sample: Seq<Frame>,
    notes: Seq<Option<Note>>,
    beat: int,
    k: int,
    i: int,
)
    requires
        0 <= k,
        0 <= beat,
        i >= rendered_len(sample, notes, beat, k),
    ensures
        rendered_left_at(sample, notes, beat, k, i) == 0,
        rendered_right_at(sample, notes, beat, k, i) == 0,
    decreases k,
{
    if k > 0 {
        lemma_rendered_len_monotone(sample, notes, beat, k - 1);
        lemma_rendered_zero_beyond(sample, notes, beat, k - 1, i);
    }
}

/// The number of frames one timeline slot spans:
/// `sample_rate * beat_length / (bpm / 60)` rounded to the nearest whole
/// frame, with `beat_length` a Q32.32 number of seconds given to one beat.
pub open spec fn beat_frames_spec(sample_rate: int, beat_len: int, bpm: int) -> int {
    let den = bpm * (SCALE as int);
    (sample_rate * beat_len * 60 + den / 2) / den
}

/// Computes [`beat_frames_spec`] on machine words.
pub fn beat_frames(sample_rate: u32, beat_len: u64, bpm: u16) -> (r: usize)
    requires
        1 <= bpm,
        beat_frames_spec(sample_rate as int, beat_len as int, bpm as int) <= usize::MAX,
    ensures
        r as int == beat_frames_spec(sample_rate as int, beat_len as int, bpm as int),
{
    proof {
        lemma_mul_upper_bound(
            sample_rate as int,
            u32::MAX as int,
            beat_len as int,
            u64::MAX as int,
        );
        lemma_mul_upper_bound(
            sample_rate as int * beat_len as int,
            u32::MAX as int * u64::MAX as int,
            60,
            60,
        );
        vstd::arithmetic::mul::lemma_mul_nonnegative(sample_rate as int, beat_len as int);
        vstd::arithmetic::mul::lemma_mul_nonnegative(
            sample_rate as int * beat_len as int,
            60,
        );
        lemma_div_pos(
            sample_rate as int * beat_len as int * 60 + (bpm as int * SCALE as int) / 2,
            bpm as int * SCALE as int,
        );
    }
    let num: u128 = (sample_rate as u128) * (beat_len as u128) * 60;
    let den: u128 = (bpm as u128) * (SCALE as u128);
    ((num + den / 2) / den) as usize
}

proof fn lemma_div_pos(x: int, d: int)
    requires
        0 <= x,
        0 < d,
    ensures
        0 <= x / d,
{
    vstd::arithmetic::div_mod::lemma_div_pos_is_pos(x, d);
}

/// A stretch by at most [`FACTOR_MAX`] grows a sequence at most
/// thirty-two-fold.
proof fn lemma_stretch_len_bound(n: int, f: int)
    requires
        0 <= n,
        1 <= f <= FACTOR_MAX,
    ensures
        0 <= stretch_len(n, f) <= 32 * n,
{
    lemma_mul_inequality(f, FACTOR_MAX as int, n);
    vstd::arithmetic::mul::lemma_mul_is_commutative(f, n);
    vstd::arithmetic::mul::lemma_mul_is_commutative(FACTOR_MAX as int, n);
    lemma_div_is_ordered(n * f, n * (FACTOR_MAX as int), SCALE as int);
    assert(n * (FACTOR_MAX as int) == (32 * n) * (SCALE as int));
    lemma_div_by_multiple(32 * n, SCALE as int);
    vstd::arithmetic::mul::lemma_mul_nonnegative(n, f);
    vstd::arithmetic::div_mod::lemma_div_pos_is_pos(n * f, SCALE as int);
}

/// Renders one track: walks its slot sequence, pitch-shifts the base
/// sample per active slot, and sums each clip into the growing master
/// buffer at the slot's beat-quantized offset. A base sample of fewer than
/// two frames is rejected as soon as a slot needs it; a track with no
/// active slot renders to the empty buffer.
pub fn render_track(sample: &Vec<Frame>, notes: &Vec<Option<Note>>, beat: usize) -> (r: Result<
    Vec<Frame>,
    AudioError,
>)
    requires
        frames_within(sample@, AMP_LIMIT as int),
        notes_wf(notes@),
        sample@.len() <= SCALE,
        beat <= SCALE,
        notes@.len() <= 0x10_0000,
        notes@.len() * beat + 32 * sample@.len() <= usize::MAX,
    ensures
        r is Ok <==> (sample@.len() >= 2 || !has_active_slot(notes@)),
        r is Err ==> r == Err::<Vec<Frame>, AudioError>(AudioError::TooFewSamples),
        r matches Ok(buf) ==> buf@.len() == rendered_len(
            sample@,
            notes@,
            beat as int,
            notes@.len() as int,
        ) && (forall|i: int|
            0 <= i < buf@.len() ==> (#[trigger] buf@[i]).left as int == rendered_left_at(
                sample@,
                notes@,
                beat as int,
                notes@.len() as int,
                i,
            ) && buf@[i].right as int == rendered_right_at(
                sample@,
                notes@,
                beat as int,
                notes@.len() as int,
                i,
            )),
{
    let ghost bi = beat as int;
    let mut buf: Vec<Frame> = Vec::new();
    let mut t: usize = 0;
    while t < notes.len()
        invariant
            t <= notes@.len(),
            frames_within(sample@, AMP_LIMIT as int),
            notes_wf(notes@),
            sample@.len() <= SCALE,
            beat <= SCALE,
            notes@.len() <= 0x10_0000,
            notes@.len() * beat + 32 * sample@.len() <= usize::MAX,
            bi == beat as int,
            buf@.len() == rendered_len(sample@, notes@, bi, t as int),
            frames_within(buf@, t as int * (AMP_LIMIT as int)),
            forall|i: int|
                0 <= i < buf@.len() ==> (#[trigger] buf@[i]).left as int == rendered_left_at(
                    sample@,
                    notes@,
                    bi,
                    t as int,
                    i,
                ) && buf@[i].right as int == rendered_right_at(sample@, notes@, bi, t as int, i),
            sample@.len() < 2 ==> !has_active_slot(notes@.take(t as int)),
        decreases notes@.len() - t,
    {
        proof {
            lemma_mul_inequality(t as int, notes@.len() as int, beat as int);
        }
        let is_active = notes[t].is_some();
        if is_active {
            if sample.len() < 2 {
                proof {
                    assert(notes@[t as int] is Some);
                }
                return Err(AudioError::TooFewSamples);
            }
            let note: Note = match &notes[t] {
                Some(n) => *n,
                None => Note::new(0, 0),
            };
            proof {
                assert(notes@[t as int] matches Some(m) && m == note);
                crate::pitch::lemma_pitch_factor_bounds(note);
                lemma_stretch_len_bound(sample@.len() as int, pitch_factor_spec(note));
            }
            let clip = match pitch_shift(sample, &note) {
                Ok(c) => c,
                Err(e) => {
                    proof {
                        assert(false);
                    }
                    return Err(e);
                },
            };
            let start: usize = t * beat;
            let ghost old_buf = buf@;
            proof {
                lemma_rendered_len_monotone(sample@, notes@, bi, t as int);
                assert forall|i: int|
                    0 <= i < overlay_len(old_buf.len() as int, start as int, clip@.len() as int)
                        implies i64::MIN <= #[trigger] overlay_left_at(
                        old_buf,
                        start as int,
                        clip@,
                        i,
                    ) <= i64::MAX && i64::MIN <= overlay_right_at(old_buf, start as int, clip@, i)
                        <= i64::MAX by {
                    assert(-(t as int * (AMP_LIMIT as int)) <= buf_left_at(old_buf, i) <= t as int
                        * (AMP_LIMIT as int));
                    assert(t as int * (AMP_LIMIT as int) <= 0x10_0000 * (AMP_LIMIT as int)) by {
                        lemma_mul_inequality(t as int, 0x10_0000, AMP_LIMIT as int);
                    }
                }
            }
            buf = add_vecs_starting_from(buf, start, &clip);
            proof {
                let ti = t as int;
                assert(rendered_len(sample@, notes@, bi, ti + 1) == overlay_len(
                    old_buf.len() as int,
                    start as int,
                    clip@.len() as int,
                ));
                assert forall|i: int| 0 <= i < buf@.len() implies (#[trigger] buf@[i]).left as int
                    == rendered_left_at(sample@, notes@, bi, ti + 1, i) && buf@[i].right as int
                    == rendered_right_at(sample@, notes@, bi, ti + 1, i) by {
                    if i >= old_buf.len() {
                        lemma_rendered_zero_beyond(sample@, notes@, bi, ti, i);
                    }
                    assert(overlay_left_at(old_buf, start as int, clip@, i) == rendered_left_at(
                        sample@,
                        notes@,
                        bi,
                        ti + 1,
                        i,
                    ));
                    assert(overlay_right_at(old_buf, start as int, clip@, i)
                        == rendered_right_at(sample@, notes@, bi, ti + 1, i));
                }
                assert forall|i: int|
                    0 <= i < buf@.len() implies -((ti + 1) * (AMP_LIMIT as int)) <= (
                    #[trigger] buf@[i]).left <= (ti + 1) * (AMP_LIMIT as int) && -((ti + 1) * (
                    AMP_LIMIT as int)) <= buf@[i].right <= (ti + 1) * (AMP_LIMIT as int) by {
                    assert(-(ti * (AMP_LIMIT as int)) <= buf_left_at(old_buf, i) <= ti * (
                    AMP_LIMIT as int));
                    assert(-(ti * (AMP_LIMIT as int)) <= buf_right_at(old_buf, i) <= ti * (
                    AMP_LIMIT as int));
                }
                assert(notes@.take(ti + 1).drop_last() =~= notes@.take(ti));
            }
        } else {
            proof {
                let ti = t as int;
                assert(notes@[ti] is None);
                assert(rendered_len(sample@, notes@, bi, ti + 1) == rendered_len(
                    sample@,
                    notes@,
                    bi,
                    ti,
                ));
                assert forall|i: int| 0 <= i < buf@.len() implies (#[trigger] buf@[i]).left as int
                    == rendered_left_at(sample@, notes@, bi, ti + 1, i) && buf@[i].right as int
                    == rendered_right_at(sample@, notes@, bi, ti + 1, i) by {}
                assert(notes@.take(ti + 1).drop_last() =~= notes@.take(ti));
                assert(sample@.len() < 2 ==> !has_active_slot(notes@.take(ti + 1)));
            }
        }
        t += 1;
    }
    proof {
        assert(notes@.take(notes@.len() as int) =~= notes@);
    }
    Ok(buf)
}

/// The greatest length among the track buffers.
pub open spec fn max_track_len(tracks: Seq<Vec<Frame>>) -> int
    decreases tracks.len(),
{
    if tracks.len() == 0 {
        0
    } else {
        let rest = max_track_len(tracks.drop_last());
        if tracks.last()@.len() > rest {
            tracks.last()@.len() as int
        } else {
            rest
        }
    }
}

/// The left channel of the mix of the first `k` tracks at index `i`:
/// tracks shorter than `i` contribute silence.
pub open spec fn mix_left_upto(tracks: Seq<Vec<Frame>>, k: int, i: int) -> int
    decreases k,
{
    if k <= 0 {
        0
    } else {
        mix_left_upto(tracks, k - 1, i) + buf_left_at(tracks[k - 1]@, i)
    }
}

/// The right channel of the mix of the first `k` tracks at index `i`.
pub open spec fn mix_right_upto(tracks: Seq<Vec<Frame>>, k: int, i: int) -> int
    decreases k,
{
    if k <= 0 {
        0
    } else {
        mix_right_upto(tracks, k - 1, i) + buf_right_at(tracks[k - 1]@, i)
    }
}

/// The left channel of the final mix at index `i`.
pub open spec fn mix_left_at(tracks: Seq<Vec<Frame>>, i: int) -> int {
    mix_left_upto(tracks, tracks.len() as int, i)
}

/// The right channel of the final mix at index `i`.
pub open spec fn mix_right_at(tracks: Seq<Vec<Frame>>, i: int) -> int {
    mix_right_upto(tracks, tracks.len() as int, i)
}

/// Mixes the track buffers into the final render: at every index up to the
/// longest buffer's length, the elementwise sum over all buffers that
/// still reach that index. An empty track list is rejected.
pub fn join_tracks(tracks: Vec<Vec<Frame>>) -> (r: Result<Vec<Frame>, AudioError>)
    requires
        forall|k: int, i: int|
            0 <= k <= tracks@.len() && 0 <= i < max_track_len(tracks@) ==> i64::MIN
                <= #[trigger] mix_left_upto(tracks@, k, i) <= i64::MAX,
        forall|k: int, i: int|
            0 <= k <= tracks@.len() && 0 <= i < max_track_len(tracks@) ==> i64::MIN
                <= #[trigger] mix_right_upto(tracks@, k, i) <= i64::MAX,
    ensures
        r is Ok <==> tracks@.len() >= 1,
        tracks@.len() == 0 ==> r == Err::<Vec<Frame>, AudioError>(AudioError::NoTracks),
        r matches Ok(out) ==> out@.len() == max_track_len(tracks@) && (forall|i: int|
            0 <= i < out@.len() ==> (#[trigger] out@[i]).left as int == mix_left_at(tracks@, i)
                && out@[i].right as int == mix_right_at(tracks@, i)),
{
    if tracks.len() == 0 {
        return Err(AudioError::NoTracks);
    }
    let mut len: usize = 0;
    let mut k: usize = 0;
    while k < tracks.len()
        invariant
            k <= tracks@.len(),
            len as int == max_track_len(tracks@.take(k as int)),
        decreases tracks@.len() - k,
    {
        let tl = tracks[k].len();
        proof {
            assert(tracks@.take(k + 1).drop_last() =~= tracks@.take(k as int));
            assert(tracks@.take(k + 1).last() == tracks@[k as int]);
        }
        if tl > len {
            len = tl;
        }
        k += 1;
    }
    proof {
        assert(tracks@.take(tracks@.len() as int) =~= tracks@);
    }
    let mut out: Vec<Frame> = Vec::new();
    let mut i: usize = 0;
    while i < len
        invariant
            i <= len,
            out@.len() == i,
            len as int == max_track_len(tracks@),
            forall|k2: int, i2: int|
                0 <= k2 <= tracks@.len() && 0 <= i2 < max_track_len(tracks@) ==> i64::MIN
                    <= #[trigger] mix_left_upto(tracks@, k2, i2) <= i64::MAX,
            forall|k2: int, i2: int|
                0 <= k2 <= tracks@.len() && 0 <= i2 < max_track_len(tracks@) ==> i64::MIN
                    <= #[trigger] mix_right_upto(tracks@, k2, i2) <= i64::MAX,
            forall|j: int|
                0 <= j < i ==> (#[trigger] out@[j]).left as int == mix_left_at(tracks@, j)
                    && out@[j].right as int == mix_right_at(tracks@, j),
        decreases len - i,
    {
        let mut val = Frame::new(0, 0);
        let mut k2: usize = 0;
        while k2 < tracks.len()
            invariant
                k2 <= tracks@.len(),
                i < len,
                len as int == max_track_len(tracks@),
                val.left as int == mix_left_upto(tracks@, k2 as int, i as int),
                val.right as int == mix_right_upto(tracks@, k2 as int, i as int),
                forall|k3: int, i2: int|
                    0 <= k3 <= tracks@.len() && 0 <= i2 < max_track_len(tracks@) ==> i64::MIN
                        <= #[trigger] mix_left_upto(tracks@, k3, i2) <= i64::MAX,
                forall|k3: int, i2: int|
                    0 <= k3 <= tracks@.len() && 0 <= i2 < max_track_len(tracks@) ==> i64::MIN
                        <= #[trigger] mix_right_upto(tracks@, k3, i2) <= i64::MAX,
            decreases tracks@.len() - k2,
        {
            let part: Frame = if i < tracks[k2].len() {
                tracks[k2][i]
            } else {
                Frame::new(0, 0)
            };
            proof {
                assert(part.left as int == buf_left_at(tracks@[k2 as int]@, i as int));
                assert(mix_left_upto(tracks@, k2 as int + 1, i as int) == mix_left_upto(
                    tracks@,
                    k2 as int,
                    i as int,
                ) + buf_left_at(tracks@[k2 as int]@, i as int));
                assert(mix_right_upto(tracks@, k2 as int + 1, i as int) == mix_right_upto(
                    tracks@,
                    k2 as int,
                    i as int,
                ) + buf_right_at(tracks@[k2 as int]@, i as int));
            }
            val = val.add(part);
            k2 += 1;
        }
        out.push(val);
        i += 1;
    }
    Ok(out)
}

/// Mixing a single track is the identity: the mix has that track's length
/// and repeats its frames value for value.
pub proof fn lemma_mix_single_track(tracks: Seq<Vec<Frame>>, i: int)
    requires
        tracks.len() == 1,
    ensures
        max_track_len(tracks) == tracks[0]@.len(),
        0 <= i < tracks[0]@.len() ==> mix_left_at(tracks, i) == tracks[0]@[i].left
            && mix_right_at(tracks, i) == tracks[0]@[i].right,
{
    assert(tracks.drop_last().len() == 0);
    assert(max_track_len(tracks.drop_last()) == 0);
    assert(mix_left_upto(tracks, 0, i) == 0);
    assert(mix_right_upto(tracks, 0, i) == 0);
}

} // verus!
