//! The sample-word boundary of the engine: interleaved integer samples in,
//! clamped and quantized integer samples out. The container format itself
//! is handled outside the engine; only plain sample words cross here.

use vstd::prelude::*;
use vstd::arithmetic::div_mod::{lemma_div_pos_is_pos, lemma_fundamental_div_mod_converse};
use vstd::arithmetic::mul::{lemma_mul_unary_negation, lemma_mul_upper_bound};
use crate::fixed::SCALE;
use crate::frame::{clamp_val, Frame};
use crate::pitch::pow2_int;

verus! {

/// Two to the power `k` on machine words, for `k` up to 32.
fn pow2_word(k: u16) -> (p: u64)
    requires
        k <= 32,
    ensures
        p as int == pow2_int(k as int),
        1 <= p <= 0x1_0000_0000,
        k <= 31 ==> p <= 0x8000_0000,
{
    proof {
        reveal_with_fuel(pow2_int, 34);
    }
    match k {
        0 => 1,
        1 => 2,
        2 => 4,
        3 => 8,
        4 => 16,
        5 => 32,
        6 => 64,
        7 => 128,
        8 => 256,
        9 => 512,
        10 => 1024,
        11 => 2048,
        12 => 4096,
        13 => 8192,
        14 => 16384,
        15 => 32768,
        16 => 65536,
        17 => 131072,
        18 => 262144,
        19 => 524288,
        20 => 1048576,
        21 => 2097152,
        22 => 4194304,
        23 => 8388608,
        24 => 16777216,
        25 => 33554432,
        26 => 67108864,
        27 => 134217728,
        28 => 268435456,
        29 => 536870912,
        30 => 1073741824,
        31 => 2147483648,
        _ => 4294967296,
    }
}

/// How many frames an interleaved sample stream of `n` words yields when
/// read `c` words at a time: the last, possibly short group still yields
/// one frame.
pub open spec fn chunk_count(n: int, c: int) -> int {
    (n + c - 1) / c
}

/// The frame that group `k` of the interleaved stream yields: a group of
/// exactly two words is a stereo pair; any other length carries its first
/// word onto both channels.
pub open spec fn chunk_frame(s: Seq<i64>, c: int, k: int) -> Frame {
    let base = k * c;
    let len = if s.len() - base < c {
        s.len() - base
    } else {
        c
    };
    if len == 2 {
        Frame { left: s[base], right: s[base + 1] }
    } else {
        Frame { left: s[base], right: s[base] }
    }
}

/// Groups an interleaved sample stream into stereo frames, `channels`
/// words per frame: a group of exactly two words is a left/right pair, any
/// other group plays its first word on both channels.
pub fn frames_from_interleaved(samples: &Vec<i64>, channels: usize) -> (r: Vec<Frame>)
    requires
        1 <= channels,
        samples@.len() + channels <= usize::MAX,
    ensures
        r@.len() == chunk_count(samples@.len() as int, channels as int),
        forall|k: int|
            0 <= k < r@.len() ==> #[trigger] r@[k] == chunk_frame(
                samples@,
                channels as int,
                k,
            ),
{
    let ghost n = samples@.len() as int;
    let ghost c = channels as int;
    let mut r: Vec<Frame> = Vec::new();
    let mut base: usize = 0;
    while base < samples.len()
        invariant
            1 <= channels,
            samples@.len() + channels <= usize::MAX,
            n == samples@.len() as int,
            c == channels as int,
            base as int == r@.len() * c,
            base as int <= n + c - 1,
            forall|k: int|
                0 <= k < r@.len() ==> #[trigger] r@[k] == chunk_frame(samples@, c, k),
        decreases samples@.len() + channels - base,
    {
        let remaining = samples.len() - base;
        let clen = if remaining < channels {
            remaining
        } else {
            channels
        };
        let f = if clen == 2 {
            Frame::new(samples[base], samples[base + 1])
        } else {
            Frame::new(samples[base], samples[base])
        };
        proof {
            let k = r@.len() as int;
            assert((k + 1) * c == k * c + c) by (nonlinear_arith);
            assert(f == chunk_frame(samples@, c, k));
        }
        r.push(f);
        base += channels;
    }
    proof {
        let k = r@.len() as int;
        if n == 0 {
            assert(k == 0) by (nonlinear_arith)
                requires
                    k * c <= c - 1,
                    1 <= c,
                    0 <= k,
            ;
            lemma_fundamental_div_mod_converse(n + c - 1, c, 0, c - 1);
        } else {
            assert(base as int == k * c >= n);
            assert((k - 1) * c == k * c - c) by (nonlinear_arith);
            lemma_fundamental_div_mod_converse(n + c - 1, c, k, n + c - 1 - k * c);
        }
    }
    r
}

/// Turns one integer sample of the given bit depth into a Q32.32
/// amplitude: the sample divided by `2^(bits - 1)`, which the fixed-point
/// grid represents exactly as a product with `2^(33 - bits)`.
pub fn amp_from_int(val: i32, bits: u16) -> (r: i64)
    requires
        1 <= bits <= 32,
    ensures
        r as int == val * pow2_int(33 - bits),
{
    let p = pow2_word(33 - bits);
    if val >= 0 {
        proof {
            lemma_mul_upper_bound(val as int, 0x7FFF_FFFF, p as int, 0x1_0000_0000);
            vstd::arithmetic::mul::lemma_mul_nonnegative(val as int, p as int);
        }
        ((val as u64) * p) as i64
    } else {
        let mag: u64 = (-(val as i64)) as u64;
        proof {
            lemma_mul_upper_bound(mag as int, 0x8000_0000, p as int, 0x1_0000_0000);
            vstd::arithmetic::mul::lemma_mul_nonnegative(mag as int, p as int);
            lemma_mul_unary_negation(mag as int, p as int);
        }
        (-((mag * p) as i128)) as i64
    }
}

/// The integer sample one channel value yields at the given bit depth:
/// the amplitude clamped to `[-1, 1]`, scaled by `2^(bits - 1)` (on the
/// fixed-point grid, divided by `2^(33 - bits)`) and rounded to the
/// nearest integer with ties away from zero, then saturated to the
/// representable signed range, so a full-scale amplitude yields the
/// greatest representable sample.
pub open spec fn quantize_spec(v: int, bits: int) -> int {
    let c = clamp_val(v, -(SCALE as int), SCALE as int);
    let m = pow2_int(33 - bits);
    let q = if c >= 0 {
        (c + m / 2) / m
    } else {
        -(((-c) + m / 2) / m)
    };
    let hi = pow2_int(bits - 1) - 1;
    let lo = -pow2_int(bits - 1);
    if q > hi {
        hi
    } else if q < lo {
        lo
    } else {
        q
    }
}

/// Computes [`quantize_spec`] for one channel value.
pub fn quantize_amp(v: i64, bits: u16) -> (r: i32)
    requires
        1 <= bits <= 32,
    ensures
        r as int == quantize_spec(v as int, bits as int),
{
    let s = SCALE as i64;
    let c: i64 = if v < -s {
        -s
    } else if v > s {
        s
    } else {
        v
    };
    let m = pow2_word(33 - bits);
    let half_m: u64 = m / 2;
    let q: i64 = if c >= 0 {
        proof {
            lemma_div_pos_is_pos(c as int + half_m as int, m as int);
            vstd::arithmetic::div_mod::lemma_div_nonincreasing(
                c as int + half_m as int,
                m as int,
            );
        }
        (((c as u64) + half_m) / m) as i64
    } else {
        let mag: u64 = (-(c as i64)) as u64;
        proof {
            lemma_div_pos_is_pos(mag as int + half_m as int, m as int);
            vstd::arithmetic::div_mod::lemma_div_nonincreasing(
                mag as int + half_m as int,
                m as int,
            );
        }
        -(((mag + half_m) / m) as i64)
    };
    let half = pow2_word(bits - 1);
    let hi: i64 = (half as i64) - 1;
    let lo: i64 = -(half as i64);
    let sat: i64 = if q > hi {
        hi
    } else if q < lo {
        lo
    } else {
        q
    };
    sat as i32
}

/// Quantizes both channels of a frame.
pub fn quantize_frame(f: &Frame, bits: u16) -> (r: (i32, i32))
    requires
        1 <= bits <= 32,
    ensures
        r.0 as int == quantize_spec(f.left as int, bits as int),
        r.1 as int == quantize_spec(f.right as int, bits as int),
{
    (quantize_amp(f.left, bits), quantize_amp(f.right, bits))
}

/// Quantizes a whole buffer into interleaved integer samples, left then
/// right for every frame.
pub fn interleave_quantized(frames: &Vec<Frame>, bits: u16) -> (r: Vec<i32>)
    requires
        1 <= bits <= 32,
        frames@.len() * 2 <= usize::MAX,
    ensures
        r@.len() == 2 * frames@.len(),
        forall|k: int|
            0 <= k < frames@.len() ==> #[trigger] r@[2 * k] as int == quantize_spec(
                frames@[k].left as int,
                bits as int,
            ) && r@[2 * k + 1] as int == quantize_spec(frames@[k].right as int, bits as int),
{
    let mut r: Vec<i32> = Vec::new();
    let mut i: usize = 0;
    while i < frames.len()
        invariant
            i <= frames@.len(),
            1 <= bits <= 32,
            frames@.len() * 2 <= usize::MAX,
            r@.len() == 2 * i,
            forall|k: int|
                0 <= k < i ==> #[trigger] r@[2 * k] as int == quantize_spec(
                    frames@[k].left as int,
                    bits as int,
                ) && r@[2 * k + 1] as int == quantize_spec(frames@[k].right as int, bits as int),
        decreases frames@.len() - i,
    {
        let (l, rt) = quantize_frame(&frames[i], bits);
        let ghost old_r = r@;
        r.push(l);
        r.push(rt);
        proof {
            let ii = i as int;
            assert forall|k: int|
                0 <= k < ii + 1 implies #[trigger] r@[2 * k] as int == quantize_spec(
                frames@[k].left as int,
                bits as int,
            ) && r@[2 * k + 1] as int == quantize_spec(frames@[k].right as int, bits as int) by {
                if k < ii {
                    assert(r@[2 * k] == old_r[2 * k]);
                    assert(r@[2 * k + 1] == old_r[2 * k + 1]);
                } else {
                    assert(2 * k == old_r.len());
                    assert(r@[2 * k] == l);
                    assert(r@[2 * k + 1] == rt);
                }
            }
        }
        i += 1;
    }
    r
}

} // verus!
