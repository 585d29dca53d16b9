//! Q32.32 fixed-point scalar arithmetic.
//!
//! An amplitude is an `i64` holding `value * SCALE`; a factor is a `u64`
//! holding `factor * SCALE`. Products and quotients are truncated toward
//! zero, the direction an `as` cast of the real quotient would take.

use vstd::prelude::*;
use vstd::arithmetic::div_mod::{
    lemma_div_by_multiple, lemma_div_is_ordered, lemma_div_pos_is_pos,
};
use vstd::arithmetic::mul::{lemma_mul_inequality, lemma_mul_upper_bound};

verus! {

/// The fixed-point value `1.0`: two to the thirty-second power.
pub const SCALE: u64 = 0x1_0000_0000;

/// Amplitudes handed to the resampler and renderer stay within this bound
/// (the value `256.0`), which leaves headroom for sums of many clips.
pub const AMP_LIMIT: i64 = 0x100_0000_0000;

/// `v * f / SCALE` truncated toward zero, for a factor `f >= 0`:
/// the scaling step of every fixed-point product in the crate.
pub open spec fn scale_down(v: int, f: int) -> int {
    if v >= 0 {
        (v * f) / (SCALE as int)
    } else {
        -(((-v) * f) / (SCALE as int))
    }
}

/// `a * b / SCALE` truncated toward zero, with both operands signed:
/// the elementwise fixed-point product of two amplitudes.
pub open spec fn mul_down(a: int, b: int) -> int {
    let m = (if a >= 0 { a } else { -a }) * (if b >= 0 { b } else { -b }) / (SCALE as int);
    if (a >= 0) == (b >= 0) {
        m
    } else {
        -m
    }
}

/// `a * SCALE / b` truncated toward zero, for `b != 0`:
/// the fixed-point quotient of two amplitudes.
pub open spec fn div_down(a: int, b: int) -> int {
    let m = (if a >= 0 { a } else { -a }) * (SCALE as int) / (if b >= 0 { b } else { -b });
    if (a >= 0) == (b >= 0) {
        m
    } else {
        -m
    }
}

/// `s / 2` truncated toward zero.
pub open spec fn half_down(s: int) -> int {
    if s >= 0 {
        s / 2
    } else {
        -((-s) / 2)
    }
}

/// For `0 <= f <= SCALE`, scaling keeps a value between zero and itself:
/// the scaled value never grows in magnitude and never changes sign.
pub proof fn lemma_scale_down_range(v: int, f: int)
    requires
        0 <= f <= SCALE,
    ensures
        v >= 0 ==> 0 <= scale_down(v, f) <= v,
        v < 0 ==> v <= scale_down(v, f) <= 0,
{
    let s = SCALE as int;
    let m = if v >= 0 { v } else { -v };
    lemma_mul_inequality(f, s, m);
    lemma_div_is_ordered(m * f, m * s, s);
    lemma_div_by_multiple(m, s);
    lemma_div_pos_is_pos(m * f, s);
    vstd::arithmetic::mul::lemma_mul_is_commutative(m, f);
    vstd::arithmetic::mul::lemma_mul_is_commutative(m, s);
    vstd::arithmetic::mul::lemma_mul_nonnegative(m, f);
}

/// Computes [`scale_down`] on machine words.
pub fn scale_q32(v: i64, f: u64) -> (r: i64)
    requires
        i64::MIN <= scale_down(v as int, f as int) <= i64::MAX,
    ensures
        r as int == scale_down(v as int, f as int),
{
    if v >= 0 {
        let prod: u128 = (v as u128) * (f as u128);
        let q: u128 = prod / (SCALE as u128);
        proof {
            lemma_div_pos_is_pos(prod as int, SCALE as int);
        }
        q as i64
    } else {
        let mag: u128 = (-(v as i128)) as u128;
        let prod: u128 = mag * (f as u128);
        proof {
            lemma_mul_upper_bound(mag as int, 0x8000_0000_0000_0000, f as int, u64::MAX as int);
            lemma_div_pos_is_pos(prod as int, SCALE as int);
        }
        let q: u128 = prod / (SCALE as u128);
        (-(q as i128)) as i64
    }
}

/// Computes [`mul_down`] on machine words.
pub fn mul_q32(a: i64, b: i64) -> (r: i64)
    requires
        i64::MIN <= mul_down(a as int, b as int) <= i64::MAX,
    ensures
        r as int == mul_down(a as int, b as int),
{
    let am: u128 = if a >= 0 { a as u128 } else { (-(a as i128)) as u128 };
    let bm: u128 = if b >= 0 { b as u128 } else { (-(b as i128)) as u128 };
    let prod: u128 = am * bm;
    proof {
        lemma_mul_upper_bound(
            am as int,
            0x8000_0000_0000_0000,
            bm as int,
            0x8000_0000_0000_0000,
        );
        lemma_div_pos_is_pos(prod as int, SCALE as int);
    }
    let q: u128 = prod / (SCALE as u128);
    if (a >= 0) == (b >= 0) {
        q as i64
    } else {
        (-(q as i128)) as i64
    }
}

/// Computes [`half_down`] on machine words.
pub fn half_q32(s: i64) -> (r: i64)
    ensures
        r as int == half_down(s as int),
{
    if s >= 0 {
        (s as u64 / 2) as i64
    } else {
        let mag: u64 = (-(s as i128)) as u64;
        -((mag / 2) as i64)
    }
}

/// Computes [`div_down`] on machine words.
pub fn div_q32(a: i64, b: i64) -> (r: i64)
    requires
        b != 0,
        i64::MIN <= div_down(a as int, b as int) <= i64::MAX,
    ensures
        r as int == div_down(a as int, b as int),
{
    let am: u128 = if a >= 0 { a as u128 } else { (-(a as i128)) as u128 };
    let bm: u128 = if b >= 0 { b as u128 } else { (-(b as i128)) as u128 };
    let prod: u128 = am * (SCALE as u128);
    proof {
        lemma_mul_upper_bound(am as int, 0x8000_0000_0000_0000, SCALE as int, SCALE as int);
        lemma_div_pos_is_pos(prod as int, bm as int);
    }
    let q: u128 = prod / bm;
    if (a >= 0) == (b >= 0) {
        q as i64
    } else {
        (-(q as i128)) as i64
    }
}

} // verus!
