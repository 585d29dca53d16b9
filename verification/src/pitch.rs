//! Pitch: note names, the equal-temperament frequency ladder, and the
//! stretch factor that plays the fixed reference pitch at a note.
//!
//! Every base sample is assumed to sound at the reference frequency of
//! 261.63 Hz (middle C); a note is rendered by time-stretching the sample
//! by `261.63 / frequency(note)`, computed here in Q32.32 fixed point.

use vstd::prelude::*;
use vstd::arithmetic::div_mod::{
    lemma_div_by_multiple, lemma_div_is_ordered, lemma_div_is_ordered_by_denominator,
    lemma_div_nonincreasing, lemma_div_pos_is_pos,
};
use vstd::arithmetic::mul::{lemma_mul_inequality, lemma_mul_upper_bound};
use crate::fixed::{AMP_LIMIT, SCALE};
use crate::frame::{frames_within, lefts, rights, Frame};
use crate::resampling::{stretch_at, stretch_frames, stretch_len};
use crate::AudioError;

verus! {

/// A pitch: a letter class on the twelve-tone keyboard (0 is C, 11 is B)
/// and an octave. Note text always carries a single-digit octave.
#[derive(Clone, Copy, Debug, PartialEq, Eq, Structural)]
pub struct Note {
    pub letter: u8,
    pub octave: u8,
}

impl Note {
    /// A valid note: a letter index on the twelve-tone keyboard and a
    /// single-digit octave.
    pub open spec fn wf(&self) -> bool {
        self.letter < 12 && self.octave <= 9
    }

    pub fn new(letter: u8, octave: u8) -> (r: Note)
        requires
            letter < 12,
            octave <= 9,
        ensures
            r.letter == letter,
            r.octave == octave,
            r.wf(),
    {
        Note { letter, octave }
    }
}

/// The twelve-tone keyboard index of a letter name with an optional
/// accidental, enharmonic spellings included: C and B# share index 0, and
/// so on up to B and Cb at index 11.
pub open spec fn letter_index(c0: char, c1: Option<char>) -> Option<u8> {
    match c1 {
        None => match c0 {
            'C' => Some(0u8),
            'D' => Some(2u8),
            'E' => Some(4u8),
            'F' => Some(5u8),
            'G' => Some(7u8),
            'A' => Some(9u8),
            'B' => Some(11u8),
            _ => None,
        },
        Some(a) => if a == 'b' {
            match c0 {
                'D' => Some(1u8),
                'E' => Some(3u8),
                'F' => Some(4u8),
                'G' => Some(6u8),
                'A' => Some(8u8),
                'B' => Some(10u8),
                'C' => Some(11u8),
                _ => None,
            }
        } else if a == '#' {
            match c0 {
                'B' => Some(0u8),
                'C' => Some(1u8),
                'D' => Some(3u8),
                'E' => Some(5u8),
                'F' => Some(6u8),
                'G' => Some(8u8),
                'A' => Some(10u8),
                _ => None,
            }
        } else {
            None
        },
    }
}

/// The note a text cell names: a one- or two-character letter name
/// followed by one decimal digit for the octave. Any other text names no
/// note and is treated as silence.
pub open spec fn parsed_note(s: Seq<char>) -> Option<Note> {
    if s.len() < 2 || s.len() > 3 {
        None
    } else {
        let oc = s[s.len() - 1] as u32;
        if oc < 48 || oc > 57 {
            None
        } else {
            match letter_index(s[0], if s.len() == 3 {
                Some(s[1])
            } else {
                None
            }) {
                Some(l) => Some(Note { letter: l, octave: (oc - 48) as u8 }),
                None => None,
            }
        }
    }
}

/// Parses note text; unrecognized text yields `None`, never an error.
pub fn parse_note_text(s: &str) -> (r: Option<Note>)
    ensures
        r == parsed_note(s@),
        r matches Some(n) ==> n.wf(),
{
    let len = s.unicode_len();
    if len < 2 || len > 3 {
        return None;
    }
    let oc = s.get_char(len - 1) as u32;
    if oc < 48 || oc > 57 {
        return None;
    }
    let c0 = s.get_char(0);
    let idx: Option<u8> = if len == 2 {
        match c0 {
            'C' => Some(0u8),
            'D' => Some(2u8),
            'E' => Some(4u8),
            'F' => Some(5u8),
            'G' => Some(7u8),
            'A' => Some(9u8),
            'B' => Some(11u8),
            _ => None,
        }
    } else {
        let c1 = s.get_char(1);
        if c1 == 'b' {
            match c0 {
                'D' => Some(1u8),
                'E' => Some(3u8),
                'F' => Some(4u8),
                'G' => Some(6u8),
                'A' => Some(8u8),
                'B' => Some(10u8),
                'C' => Some(11u8),
                _ => None,
            }
        } else if c1 == '#' {
            match c0 {
                'B' => Some(0u8),
                'C' => Some(1u8),
                'D' => Some(3u8),
                'E' => Some(5u8),
                'F' => Some(6u8),
                'G' => Some(8u8),
                'A' => Some(10u8),
                _ => None,
            }
        } else {
            None
        }
    };
    match idx {
        Some(l) => Some(Note { letter: l, octave: (oc - 48) as u8 }),
        None => None,
    }
}

/// `261.63 / 440` in Q32.32: the reference pitch of every base sample,
/// divided by the frequency of A4.
pub const REF_RATIO_Q32: u64 = 2553846122;

/// No pitch factor exceeds this bound (a thirty-two-fold stretch): the
/// lowest note, C0, stretches a sample about sixteen-fold, so the proved
/// bound leaves a factor of two of slack.
pub const FACTOR_MAX: u64 = 0x20_0000_0000;

/// `2^(r/12)` in Q32.32 for `r` in 0..12: the equal-temperament semitone
/// ratios within one octave, rounded to the nearest fixed-point value.
pub open spec fn twelfth_ratio(r: int) -> int {
    if r == 0 {
        4294967296
    } else if r == 1 {
        4550359342
    } else if r == 2 {
        4820937788
    } else if r == 3 {
        5107605667
    } else if r == 4 {
        5411319705
    } else if r == 5 {
        5733093519
    } else if r == 6 {
        6074001000
    } else if r == 7 {
        6435179895
    } else if r == 8 {
        6817835604
    } else if r == 9 {
        7223245206
    } else if r == 10 {
        7652761717
    } else {
        8107818609
    }
}

fn twelfth_ratio_at(r: u32) -> (t: u64)
    requires
        r < 12,
    ensures
        t as int == twelfth_ratio(r as int),
        SCALE <= t < 2 * SCALE,
{
    match r {
        0 => 4294967296,
        1 => 4550359342,
        2 => 4820937788,
        3 => 5107605667,
        4 => 5411319705,
        5 => 5733093519,
        6 => 6074001000,
        7 => 6435179895,
        8 => 6817835604,
        9 => 7223245206,
        10 => 7652761717,
        _ => 8107818609,
    }
}

/// Two to the power `k`, for small nonnegative `k`.
pub open spec fn pow2_int(k: int) -> int
    decreases k,
{
    if k <= 0 {
        1
    } else {
        2 * pow2_int(k - 1)
    }
}

fn pow2_u64(k: u32) -> (p: u64)
    requires
        k <= 6,
    ensures
        p as int == pow2_int(k as int),
        1 <= p <= 64,
        k <= 4 ==> p <= 16,
{
    proof {
        reveal_with_fuel(pow2_int, 8);
    }
    match k {
        0 => 1,
        1 => 2,
        2 => 4,
        3 => 8,
        4 => 16,
        5 => 32,
        _ => 64,
    }
}

/// The signed semitone offset of a note from A4 on the equal-temperament
/// ladder: `octave * 12 + letter - 57`.
pub open spec fn semitone_offset(n: Note) -> int {
    n.octave * 12 + n.letter - 57
}

/// The stretch factor that makes the reference-pitch sample sound at the
/// note's frequency: `(261.63 / 440) * 2^(-semitone_offset / 12)` in
/// Q32.32, one table ratio scaled by a whole number of octaves.
pub open spec fn pitch_factor_spec(n: Note) -> int {
    let e = 72 - semitone_offset(n);
    let q = e / 12;
    let r = e % 12;
    let base = (REF_RATIO_Q32 as int) * twelfth_ratio(r) / (SCALE as int);
    if q >= 6 {
        base * pow2_int(q - 6)
    } else {
        base / pow2_int(6 - q)
    }
}

/// Computes [`pitch_factor_spec`]: always at least one fixed-point unit
/// and at most [`FACTOR_MAX`].
pub fn pitch_factor(note: &Note) -> (f: u64)
    requires
        note.wf(),
    ensures
        f as int == pitch_factor_spec(*note),
        1 <= f <= FACTOR_MAX,
{
    let st: u32 = 12 * (note.octave as u32) + (note.letter as u32);
    let e: u32 = 129 - st;
    let q: u32 = e / 12;
    let rr: u32 = e % 12;
    let t: u64 = twelfth_ratio_at(rr);
    proof {
        lemma_mul_upper_bound(
            REF_RATIO_Q32 as int,
            SCALE as int,
            t as int,
            2 * SCALE as int,
        );
        lemma_mul_inequality(SCALE as int, t as int, REF_RATIO_Q32 as int);
        vstd::arithmetic::mul::lemma_mul_is_commutative(SCALE as int, REF_RATIO_Q32 as int);
        vstd::arithmetic::mul::lemma_mul_is_commutative(t as int, REF_RATIO_Q32 as int);
        lemma_div_is_ordered(
            REF_RATIO_Q32 as int * SCALE as int,
            REF_RATIO_Q32 as int * t as int,
            SCALE as int,
        );
        lemma_div_is_ordered(
            REF_RATIO_Q32 as int * t as int,
            SCALE as int * (2 * SCALE as int),
            SCALE as int,
        );
        lemma_div_by_multiple(REF_RATIO_Q32 as int, SCALE as int);
        vstd::arithmetic::mul::lemma_mul_is_commutative(SCALE as int, 2 * SCALE as int);
        lemma_div_by_multiple(2 * SCALE as int, SCALE as int);
        lemma_div_pos_is_pos(REF_RATIO_Q32 as int * t as int, SCALE as int);
    }
    let base: u64 = (((REF_RATIO_Q32 as u128) * (t as u128)) / (SCALE as u128)) as u64;
    if q >= 6 {
        let p = pow2_u64(q - 6);
        proof {
            lemma_mul_upper_bound(base as int, 2 * SCALE as int, p as int, 16);
            lemma_mul_inequality(1, p as int, base as int);
            vstd::arithmetic::mul::lemma_mul_is_commutative(p as int, base as int);
        }
        base * p
    } else {
        let p = pow2_u64(6 - q);
        proof {
            lemma_div_is_ordered_by_denominator(base as int, p as int, 64);
            lemma_div_is_ordered(REF_RATIO_Q32 as int, base as int, 64);
            lemma_div_nonincreasing(base as int, p as int);
            lemma_div_pos_is_pos(base as int, p as int);
        }
        base / p
    }
}

proof fn lemma_pow2_small(k: int)
    requires
        0 <= k <= 6,
    ensures
        1 <= pow2_int(k) <= 64,
        k <= 4 ==> pow2_int(k) <= 16,
{
    reveal_with_fuel(pow2_int, 8);
    if k == 0 {
    } else if k == 1 {
    } else if k == 2 {
    } else if k == 3 {
    } else if k == 4 {
    } else if k == 5 {
    } else {
        assert(k == 6);
    }
}

/// Every valid note's factor lies between one fixed-point unit and
/// [`FACTOR_MAX`].
pub proof fn lemma_pitch_factor_bounds(n: Note)
    requires
        n.wf(),
    ensures
        1 <= pitch_factor_spec(n) <= FACTOR_MAX,
{
    let e = 72 - semitone_offset(n);
    assert(10 <= e <= 129);
    let q = e / 12;
    let r = e % 12;
    lemma_div_pos_is_pos(e, 12);
    lemma_div_is_ordered(e, 129, 12);
    vstd::arithmetic::div_mod::lemma_mod_bound(e, 12);
    let t = twelfth_ratio(r);
    assert(SCALE as int <= t < 2 * (SCALE as int));
    lemma_mul_upper_bound(REF_RATIO_Q32 as int, SCALE as int, t, 2 * (SCALE as int));
    lemma_mul_inequality(SCALE as int, t, REF_RATIO_Q32 as int);
    vstd::arithmetic::mul::lemma_mul_is_commutative(SCALE as int, REF_RATIO_Q32 as int);
    vstd::arithmetic::mul::lemma_mul_is_commutative(t, REF_RATIO_Q32 as int);
    lemma_div_is_ordered(
        REF_RATIO_Q32 as int * SCALE as int,
        REF_RATIO_Q32 as int * t,
        SCALE as int,
    );
    lemma_div_is_ordered(
        REF_RATIO_Q32 as int * t,
        SCALE as int * (2 * SCALE as int),
        SCALE as int,
    );
    lemma_div_by_multiple(REF_RATIO_Q32 as int, SCALE as int);
    vstd::arithmetic::mul::lemma_mul_is_commutative(SCALE as int, 2 * SCALE as int);
    lemma_div_by_multiple(2 * SCALE as int, SCALE as int);
    lemma_div_pos_is_pos(REF_RATIO_Q32 as int * t, SCALE as int);
    let base = (REF_RATIO_Q32 as int) * t / (SCALE as int);
    assert(REF_RATIO_Q32 as int <= base <= 2 * SCALE as int);
    if q >= 6 {
        lemma_pow2_small(q - 6);
        lemma_mul_upper_bound(base, 2 * SCALE as int, pow2_int(q - 6), 16);
        lemma_mul_inequality(1, pow2_int(q - 6), base);
        vstd::arithmetic::mul::lemma_mul_is_commutative(pow2_int(q - 6), base);
    } else {
        lemma_pow2_small(6 - q);
        lemma_div_is_ordered_by_denominator(base, pow2_int(6 - q), 64);
        lemma_div_is_ordered(REF_RATIO_Q32 as int, base, 64);
        lemma_div_nonincreasing(base, pow2_int(6 - q));
        lemma_div_pos_is_pos(base, pow2_int(6 - q));
    }
}

/// Pitch-shifts a stereo sample to `note`: a pure time-stretch by the
/// note's factor, one channel at a time — played back at an unchanged
/// rate, the shorter or longer clip sounds higher or lower.
pub fn pitch_shift(frames: &Vec<Frame>, note: &Note) -> (r: Result<Vec<Frame>, AudioError>)
    requires
        note.wf(),
        frames_within(frames@, AMP_LIMIT as int),
        stretch_len(frames@.len() as int, pitch_factor_spec(*note)) <= usize::MAX,
    ensures
        r is Ok <==> frames@.len() >= 2,
        frames@.len() < 2 ==> r == Err::<Vec<Frame>, AudioError>(AudioError::TooFewSamples),
        r matches Ok(out) ==> out@.len() == stretch_len(
            frames@.len() as int,
            pitch_factor_spec(*note),
        ) && (forall|j: int|
            0 <= j < out@.len() ==> (#[trigger] out@[j]).left as int == stretch_at(
                lefts(frames@),
                pitch_factor_spec(*note),
                j,
            ) && out@[j].right as int == stretch_at(rights(frames@), pitch_factor_spec(*note), j))
            && frames_within(out@, AMP_LIMIT as int),
{
    let f = pitch_factor(note);
    stretch_frames(frames, f)
}

} // verus!
