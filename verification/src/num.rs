//! Exact fixed-point arithmetic for grid values.
//!
//! Values, rewards and action probabilities are signed 64-bit counts of
//! `1/SCALE`. Sums saturate at the ends of the `i64` range (the range ends
//! play the role of infinities), products with probabilities rescale by
//! `SCALE` truncating toward zero, and the four-neighbor average divides by
//! four truncating toward zero. Every operation here is deterministic and
//! exactly mirrored by a spec function, so sweeps are bit-for-bit
//! reproducible.

use vstd::prelude::*;
use vstd::arithmetic::div_mod::lemma_div_is_ordered;
use vstd::arithmetic::div_mod::lemma_div_pos_is_pos;

verus! {

/// Number of fixed-point units in 1.0.
pub const SCALE: i64 = 65536;

/// Saturate an unbounded integer into the `i64` range.
pub open spec fn clip(x: int) -> i64 {
    if x > i64::MAX {
        i64::MAX
    } else if x < i64::MIN {
        i64::MIN
    } else {
        x as i64
    }
}

/// Saturating fixed-point addition.
pub open spec fn sat_add(a: i64, b: i64) -> i64 {
    clip(a + b)
}

/// Integer division truncating toward zero (the rounding used by every
/// rescaling step).
pub open spec fn trunc_div(x: int, d: int) -> int
    recommends
        d > 0,
{
    if x >= 0 {
        x / d
    } else {
        -((-x) / d)
    }
}

/// Probability-weighted value: `p * x / SCALE`, truncated toward zero and
/// saturated.
pub open spec fn prob_mul(p: i64, x: i64) -> i64 {
    clip(trunc_div(p * x, SCALE as int))
}

/// A quarter of an (unbounded) sum, truncated toward zero and saturated:
/// the divisor of the four-neighbor averaging model.
pub open spec fn quarter(x: int) -> i64 {
    clip(trunc_div(x, 4))
}

/// Saturation keeps order.
pub proof fn lemma_clip_monotone(x: int, y: int)
    requires
        x <= y,
    ensures
        clip(x) <= clip(y),
{
}

/// Division truncating toward zero keeps order.
pub proof fn lemma_trunc_div_monotone(x: int, y: int, d: int)
    requires
        x <= y,
        d > 0,
    ensures
        trunc_div(x, d) <= trunc_div(y, d),
{
    if x >= 0 {
        lemma_div_is_ordered(x, y, d);
    } else if y >= 0 {
        lemma_div_pos_is_pos(-x, d);
        lemma_div_pos_is_pos(y, d);
    } else {
        lemma_div_is_ordered(-y, -x, d);
    }
}

/// Division truncating toward zero keeps a sign.
pub proof fn lemma_trunc_div_nonneg(x: int, d: int)
    requires
        x >= 0,
        d > 0,
    ensures
        trunc_div(x, d) >= 0,
{
    lemma_div_pos_is_pos(x, d);
}

/// Saturate a 128-bit intermediate into the `i64` range.
fn clip_i128(x: i128) -> (r: i64)
    ensures
        r == clip(x as int),
{
    if x > i64::MAX as i128 {
        i64::MAX
    } else if x < i64::MIN as i128 {
        i64::MIN
    } else {
        x as i64
    }
}

/// 128-bit division truncating toward zero, computed on magnitudes so that
/// only unsigned machine division is used.
fn div_trunc_i128(x: i128, d: u64) -> (r: i128)
    requires
        d > 0,
        i128::MIN < x,
    ensures
        r == trunc_div(x as int, d as int),
{
    if x >= 0 {
        let q: u128 = (x as u128) / (d as u128);
        q as i128
    } else {
        let q: u128 = ((-x) as u128) / (d as u128);
        -(q as i128)
    }
}

/// Saturating addition of two fixed-point values.
pub fn add_sat(a: i64, b: i64) -> (r: i64)
    ensures
        r == sat_add(a, b),
{
    let s: i128 = a as i128 + b as i128;
    clip_i128(s)
}

/// `p * x / SCALE`, truncated toward zero and saturated.
pub fn mul_prob(p: i64, x: i64) -> (r: i64)
    ensures
        r == prob_mul(p, x),
{
    proof {
        assert((p as int) * (x as int) <= 0x4000_0000_0000_0000_0000_0000_0000_0000
            && (p as int) * (x as int) >= -0x4000_0000_0000_0000_0000_0000_0000_0000)
            by (nonlinear_arith)
            requires
                i64::MIN <= p <= i64::MAX,
                i64::MIN <= x <= i64::MAX,
        ;
    }
    let prod: i128 = (p as i128) * (x as i128);
    let q: i128 = div_trunc_i128(prod, 65536);
    clip_i128(q)
}

/// A quarter of the sum of four fixed-point values, truncated toward zero
/// and saturated.
pub fn quarter_sum(a: i64, b: i64, c: i64, d: i64) -> (r: i64)
    ensures
        r == quarter(a as int + b as int + c as int + d as int),
{
    let s: i128 = a as i128 + b as i128 + c as i128 + d as i128;
    let q: i128 = div_trunc_i128(s, 4);
    clip_i128(q)
}

/// A quarter of a single fixed-point value, truncated toward zero.
pub fn quarter_one(x: i64) -> (r: i64)
    ensures
        r == quarter(x as int),
{
    let q: i128 = div_trunc_i128(x as i128, 4);
    clip_i128(q)
}

} // verus!
