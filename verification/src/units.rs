//! Fixed-point units shared by the whole library.
//!
//! * frequencies: hertz;
//! * levels (dBFS, dB above the noise): millionths of a decibel;
//! * audio gains and ratios: millionths;
//! * audio samples: hundred-millionths of full scale;
//! * tuner gains: tenths of a decibel, as the hardware reports them.

use vstd::prelude::*;

verus! {

/// One decibel.
pub const DB: i32 = 1_000_000;

/// A gain or a ratio of one.
pub const ONE: i32 = 1_000_000;

/// A full-scale audio sample.
pub const FULL_SCALE: i32 = 100_000_000;

/// `a / b` rounded to the nearest integer, halves upwards.
pub open spec fn nearest(a: int, b: int) -> int
    recommends
        b > 0,
{
    (2 * a + b) / (2 * b)
}

/// `v` brought into the interval from `lo` to `hi`.
pub open spec fn clamped(v: int, lo: int, hi: int) -> int {
    if v < lo {
        lo
    } else if v > hi {
        hi
    } else {
        v
    }
}

/// Rounding a quotient commutes with a shift by a whole number.
pub proof fn lemma_nearest_shift(a: int, b: int, k: int)
    requires
        b > 0,
    ensures
        nearest(a + k * b, b) == nearest(a, b) + k,
{
    assert(2 * (a + k * b) + b == (2 * b) * k + (2 * a + b)) by (nonlinear_arith);
    vstd::arithmetic::div_mod::lemma_div_multiples_vanish_fancy(k, 0, 2 * b);
    vstd::arithmetic::div_mod::lemma_hoist_over_denominator(2 * a + b, k, (2 * b) as nat);
    assert((2 * b) * k == k * (2 * b)) by (nonlinear_arith);
}

/// A multiple of `b` over `b` is a whole number.
pub proof fn lemma_nearest_multiple(k: int, b: int)
    requires
        b > 0,
    ensures
        nearest(k * b, b) == k,
{
    vstd::arithmetic::div_mod::lemma_fundamental_div_mod_converse(b, 2 * b, 0, b);
    lemma_nearest_shift(0, b, k);
}

/// Rounding looks at the ratio alone.
pub proof fn lemma_nearest_scaled(a: int, b: int, c: int)
    requires
        b > 0,
        c > 0,
    ensures
        nearest(c * a, c * b) == nearest(a, b),
{
    let (x, d) = (2 * a + b, 2 * b);
    let (q, r) = (x / d, x % d);
    vstd::arithmetic::div_mod::lemma_fundamental_div_mod(x, d);
    vstd::arithmetic::div_mod::lemma_mod_bound(x, d);
    assert(2 * (c * a) + c * b == q * (2 * (c * b)) + c * r) by (nonlinear_arith)
        requires
            2 * a + b == (2 * b) * q + r,
    ;
    assert(0 <= c * r < 2 * (c * b)) by (nonlinear_arith)
        requires
            0 <= r < 2 * b,
            c > 0,
    ;
    vstd::arithmetic::div_mod::lemma_fundamental_div_mod_converse(
        2 * (c * a) + c * b,
        2 * (c * b),
        q,
        c * r,
    );
}

/// `a / b` rounded to the nearest integer lies within half a unit of `a / b`.
pub proof fn lemma_nearest_bounds(a: int, b: int)
    requires
        b > 0,
    ensures
        2 * a - b < 2 * b * nearest(a, b) <= 2 * a + b,
{
    vstd::arithmetic::div_mod::lemma_fundamental_div_mod(2 * a + b, 2 * b);
    vstd::arithmetic::div_mod::lemma_mod_bound(2 * a + b, 2 * b);
}

/// The quotient of two integers, rounded downwards.
pub fn floor_div(n: i128, d: i128) -> (q: i128)
    requires
        0 < d <= 0x1000_0000_0000_0000_0000,
        -0x1000_0000_0000_0000_0000_0000_0000 <= n <= 0x1000_0000_0000_0000_0000_0000_0000,
    ensures
        q as int == n as int / d as int,
{
    if n >= 0 {
        ((n as u128) / (d as u128)) as i128
    } else {
        let m: u128 = (-n) as u128;
        let q: u128 = (m + (d as u128 - 1)) / (d as u128);
        proof {
            let (mi, di, qi) = (m as int, d as int, q as int);
            vstd::arithmetic::div_mod::lemma_fundamental_div_mod(mi + di - 1, di);
            vstd::arithmetic::div_mod::lemma_mod_bound(mi + di - 1, di);
            let r = qi * di - mi;
            assert(di * qi == qi * di) by (nonlinear_arith);
            assert(0 <= r < di);
            assert(-qi * di == -(qi * di)) by (nonlinear_arith);
            assert(n as int == -qi * di + r);
            vstd::arithmetic::div_mod::lemma_fundamental_div_mod_converse(n as int, di, -qi, r);
            vstd::arithmetic::div_mod::lemma_div_is_ordered_by_denominator(mi + di - 1, 1, di);
        }
        -(q as i128)
    }
}

/// The quotient of two integers, rounded to the nearest, halves upwards.
pub fn round_div(a: i128, b: i128) -> (q: i128)
    requires
        0 < b <= 0x0800_0000_0000_0000_0000,
        -0x0400_0000_0000_0000_0000_0000_0000 <= a <= 0x0400_0000_0000_0000_0000_0000_0000,
    ensures
        q as int == nearest(a as int, b as int),
{
    floor_div(2 * a + b, 2 * b)
}

/// `v` brought into the interval from `lo` to `hi`.
pub fn clamp(v: i128, lo: i128, hi: i128) -> (r: i128)
    ensures
        r as int == clamped(v as int, lo as int, hi as int),
{
    if v < lo {
        lo
    } else if v > hi {
        hi
    } else {
        v
    }
}

/// Bringing a value into an interval keeps what lies in it, and moves the rest to the
/// nearer end.
pub proof fn lemma_clamped(v: int, lo: int, hi: int)
    requires
        lo <= hi,
    ensures
        lo <= clamped(v, lo, hi) <= hi,
        lo <= v <= hi ==> clamped(v, lo, hi) == v,
        v < lo ==> clamped(v, lo, hi) == lo,
        v > hi ==> clamped(v, lo, hi) == hi,
{
}

} // verus!
