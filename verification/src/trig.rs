//! A fixed-point cosine.
//!
//! Angles are integer counts of millionths of a degree and the result is an
//! integer count of millionths. On the first quarter turn the cosine is
//! Bhaskara's rational approximation, `(4q^2 - 4d^2) / (4q^2 + d^2)` with
//! `q` a quarter turn; it is exact at 0, 60 and 90 degrees. The rest of the
//! turn follows by symmetry, and every other angle by reduction to its turn.

use vstd::prelude::*;
use vstd::arithmetic::div_mod::lemma_div_is_ordered;
use vstd::arithmetic::div_mod::lemma_div_multiples_vanish;
use vstd::arithmetic::div_mod::lemma_div_pos_is_pos;
use vstd::arithmetic::div_mod::lemma_mod_multiples_vanish;
use crate::params::UNIT;

verus! {

/// One full turn, in millionths of a degree.
pub const FULL_TURN: u64 = 360_000_000;

/// Half a turn, in millionths of a degree.
pub const HALF_TURN: u64 = 180_000_000;

/// A quarter turn, in millionths of a degree.
pub const QUARTER_TURN: u64 = 90_000_000;

/// Four times the square of a quarter turn.
pub const FOUR_QUARTER_SQUARES: u64 = 32_400_000_000_000_000;

/// The cosine changes by at most one millionth over this many millionths
/// of a degree, rounding aside.
pub const STEEPNESS: u64 = 36;

/// The cosine of `d` millionths of a degree, for `d` in the first quarter
/// turn, rounded down to a whole number of millionths.
pub open spec fn quarter_cos(d: int) -> int
    recommends
        0 <= d <= QUARTER_TURN,
{
    (UNIT * (FOUR_QUARTER_SQUARES - 4 * (d * d))) / (FOUR_QUARTER_SQUARES + d * d)
}

/// The angle `phase` brought into the first half turn: its distance to the
/// nearest whole number of turns.
pub open spec fn half_turn_of(phase: int) -> int {
    let r = phase % (FULL_TURN as int);
    if r <= HALF_TURN {
        r
    } else {
        FULL_TURN - r
    }
}

/// The cosine of `f` millionths of a degree, for `f` in the first half
/// turn: the second quarter turn mirrors the first with the sign changed.
pub open spec fn half_cos(f: int) -> int
    recommends
        0 <= f <= HALF_TURN,
{
    if f <= QUARTER_TURN {
        quarter_cos(f)
    } else {
        -quarter_cos(HALF_TURN - f)
    }
}

/// The cosine of `phase` millionths of a degree, in millionths.
pub open spec fn cos_micro(phase: int) -> int {
    half_cos(half_turn_of(phase))
}

/// On the first quarter turn the cosine lies between 0 and 1.
pub proof fn lemma_quarter_cos_bounded(d: int)
    requires
        0 <= d <= QUARTER_TURN,
    ensures
        0 <= quarter_cos(d) <= UNIT,
{
    let sq = d * d;
    assert(0 <= sq <= 8_100_000_000_000_000) by (nonlinear_arith)
        requires
            0 <= d <= 90_000_000,
            sq == d * d,
    ;
    let num = UNIT * (FOUR_QUARTER_SQUARES - 4 * sq);
    let den = FOUR_QUARTER_SQUARES + sq;
    assert(0 <= num <= UNIT * den);
    assert(UNIT * den == den * UNIT) by (nonlinear_arith);
    lemma_div_pos_is_pos(num, den);
    lemma_div_is_ordered(num, UNIT * den, den);
    lemma_div_multiples_vanish(UNIT as int, den);
}

/// The cosine never leaves [-1, 1].
pub proof fn lemma_cos_bounded(phase: int)
    ensures
        -UNIT <= cos_micro(phase) <= UNIT,
{
    let f = half_turn_of(phase);
    if f <= QUARTER_TURN {
        lemma_quarter_cos_bounded(f);
    } else {
        lemma_quarter_cos_bounded(HALF_TURN - f);
    }
}

/// The cosine repeats after every full turn.
pub proof fn lemma_cos_periodic(phase: int, turns: int)
    ensures
        cos_micro(phase + turns * FULL_TURN) == cos_micro(phase),
{
    lemma_mod_multiples_vanish(turns, phase, FULL_TURN as int);
    assert(FULL_TURN * turns + phase == phase + turns * FULL_TURN) by (nonlinear_arith);
}

/// The cosine of an angle and of its negation agree.
pub proof fn lemma_cos_even(phase: int)
    ensures
        cos_micro(-phase) == cos_micro(phase),
{
    assert(half_turn_of(-phase) == half_turn_of(phase));
}

/// The approximation is exact at 0, 60 and 90 degrees, and so at their
/// mirror images in the second quarter turn.
pub proof fn lemma_cos_exact_values()
    ensures
        cos_micro(0) == UNIT,
        cos_micro(60_000_000) == UNIT / 2,
        cos_micro(90_000_000) == 0,
        cos_micro(120_000_000) == -(UNIT / 2),
        cos_micro(180_000_000) == -UNIT,
{
    assert(half_turn_of(0) == 0);
    assert(half_turn_of(60_000_000) == 60_000_000);
    assert(half_turn_of(90_000_000) == 90_000_000);
    assert(half_turn_of(120_000_000) == 120_000_000);
    assert(half_turn_of(180_000_000) == 180_000_000);
    assert(0int * 0int == 0);
    assert(60_000_000int * 60_000_000int == 3_600_000_000_000_000int);
    assert(90_000_000int * 90_000_000int == 8_100_000_000_000_000int);
    assert((1_000_000 * 32_400_000_000_000_000int) / 32_400_000_000_000_000int == 1_000_000);
    assert(quarter_cos(0) == UNIT);
    assert(quarter_cos(60_000_000) == UNIT / 2);
    assert(quarter_cos(90_000_000) == 0);
}

/// If `x1 / y1 <= x2 / y2` as fractions, then also rounded down.
proof fn lemma_cross_ordered(x1: int, y1: int, x2: int, y2: int)
    requires
        0 < y1,
        0 < y2,
        0 <= x1,
        x1 * y2 <= x2 * y1,
    ensures
        x1 / y1 <= x2 / y2,
{
    let q = x1 / y1;
    vstd::arithmetic::div_mod::lemma_fundamental_div_mod(x1, y1);
    vstd::arithmetic::div_mod::lemma_mod_bound(x1, y1);
    lemma_div_pos_is_pos(x1, y1);
    assert(y1 * q <= x1);
    assert(q * y2 <= x2) by (nonlinear_arith)
        requires
            0 < y1,
            0 < y2,
            0 <= q,
            y1 * q <= x1,
            x1 * y2 <= x2 * y1,
    ;
    lemma_div_is_ordered(q * y2, x2, y2);
    lemma_div_multiples_vanish(q, y2);
    assert(q * y2 == y2 * q) by (nonlinear_arith);
}

/// On the first quarter turn the cosine falls as the angle grows.
pub proof fn lemma_quarter_cos_falls(d1: int, d2: int)
    requires
        0 <= d1 <= d2 <= QUARTER_TURN,
    ensures
        quarter_cos(d2) <= quarter_cos(d1),
{
    let b = FOUR_QUARTER_SQUARES as int;
    let u = UNIT as int;
    let s1 = d1 * d1;
    let s2 = d2 * d2;
    assert(0 <= s1 <= s2 <= 8_100_000_000_000_000) by (nonlinear_arith)
        requires
            0 <= d1 <= d2 <= 90_000_000,
            s1 == d1 * d1,
            s2 == d2 * d2,
    ;
    let x1 = u * (b - 4 * s1);
    let y1 = b + s1;
    let x2 = u * (b - 4 * s2);
    let y2 = b + s2;
    assert(x2 * y1 <= x1 * y2) by (nonlinear_arith)
        requires
            0 <= s1 <= s2,
            4 * s2 <= b,
            0 < u,
            x1 == u * (b - 4 * s1),
            y1 == b + s1,
            x2 == u * (b - 4 * s2),
            y2 == b + s2,
    ;
    lemma_cross_ordered(x2, y2, x1, y1);
}

/// On the first quarter turn the cosine falls by no more than one millionth
/// per 36 millionths of a degree, and one more for rounding.
pub proof fn lemma_quarter_cos_gentle(d1: int, d2: int)
    requires
        0 <= d1 <= d2 <= QUARTER_TURN,
    ensures
        quarter_cos(d1) - quarter_cos(d2) <= (d2 - d1) / (STEEPNESS as int) + 1,
{
    let b = FOUR_QUARTER_SQUARES as int;
    let u = UNIT as int;
    let s1 = d1 * d1;
    let s2 = d2 * d2;
    assert(0 <= s1 <= s2 <= 8_100_000_000_000_000 && s2 - s1 == (d2 - d1) * (d2 + d1))
        by (nonlinear_arith)
        requires
            0 <= d1 <= d2 <= 90_000_000,
            s1 == d1 * d1,
            s2 == d2 * d2,
    ;
    let x1 = u * (b - 4 * s1);
    let y1 = b + s1;
    let x2 = u * (b - 4 * s2);
    let y2 = b + s2;
    let q1 = x1 / y1;
    let q2 = x2 / y2;
    vstd::arithmetic::div_mod::lemma_fundamental_div_mod(x1, y1);
    vstd::arithmetic::div_mod::lemma_mod_bound(x1, y1);
    vstd::arithmetic::div_mod::lemma_fundamental_div_mod(x2, y2);
    vstd::arithmetic::div_mod::lemma_mod_bound(x2, y2);
    assert(y1 * q1 <= x1);
    assert(x2 < y2 * (q2 + 1)) by (nonlinear_arith)
        requires
            x2 == y2 * q2 + x2 % y2,
            x2 % y2 < y2,
    ;
    let k = q1 - q2 - 1;
    if k >= 1 {
        let gap = s2 - s1;
        assert(k * (y1 * y2) < 5 * u * b * gap) by (nonlinear_arith)
            requires
                k == q1 - q2 - 1,
                0 < y1,
                0 < y2,
                y1 * q1 <= x1,
                x2 < y2 * (q2 + 1),
                x1 == u * (b - 4 * s1),
                y1 == b + s1,
                x2 == u * (b - 4 * s2),
                y2 == b + s2,
                gap == s2 - s1,
        ;
        assert(k * (b * b) <= k * (y1 * y2)) by (nonlinear_arith)
            requires
                k >= 1,
                0 < b <= y1,
                b <= y2,
        ;
        assert(k * b < 5 * u * gap) by (nonlinear_arith)
            requires
                k * (b * b) < 5 * u * b * gap,
                0 < b,
        ;
        let step = d2 - d1;
        assert(gap <= step * 180_000_000) by (nonlinear_arith)
            requires
                gap == step * (d2 + d1),
                0 <= step,
                0 <= d2 + d1 <= 180_000_000,
        ;
        assert(5 * u * gap <= 900_000_000_000_000 * step) by (nonlinear_arith)
            requires
                gap <= step * 180_000_000,
                u == 1_000_000,
        ;
        assert(k * b == 32_400_000_000_000_000 * k) by (nonlinear_arith)
            requires
                b == 32_400_000_000_000_000,
        ;
        assert(36 * k < step);
    }
}

/// Over the first half turn the cosine falls as the angle grows, by no more
/// than one millionth per 36 millionths of a degree and two for rounding.
pub proof fn lemma_half_cos_gentle(f1: int, f2: int)
    requires
        0 <= f1 <= f2 <= HALF_TURN,
    ensures
        0 <= half_cos(f1) - half_cos(f2) <= (f2 - f1) / (STEEPNESS as int) + 2,
{
    let q = QUARTER_TURN as int;
    let h = HALF_TURN as int;
    if f2 <= q {
        lemma_quarter_cos_falls(f1, f2);
        lemma_quarter_cos_gentle(f1, f2);
    } else if f1 > q {
        lemma_quarter_cos_falls(h - f2, h - f1);
        lemma_quarter_cos_gentle(h - f2, h - f1);
    } else {
        lemma_quarter_cos_bounded(f1);
        lemma_quarter_cos_bounded(h - f2);
        lemma_quarter_cos_gentle(f1, q);
        lemma_quarter_cos_gentle(h - f2, q);
        assert(quarter_cos(q) == 0) by {
            assert(90_000_000int * 90_000_000int == 8_100_000_000_000_000int);
        }
    }
}

/// The distance of an angle to the nearest whole turn changes by no more
/// than the angle does.
pub proof fn lemma_half_turn_gentle(p1: int, p2: int)
    requires
        p1 <= p2,
    ensures
        0 <= half_turn_of(p1) <= HALF_TURN,
        0 <= half_turn_of(p2) <= HALF_TURN,
        half_turn_of(p1) - half_turn_of(p2) <= p2 - p1,
        half_turn_of(p2) - half_turn_of(p1) <= p2 - p1,
{
    let t = FULL_TURN as int;
    if p2 - p1 < t {
        let r1 = p1 % t;
        let r2 = p2 % t;
        assert(r2 == r1 + (p2 - p1) || r2 == r1 + (p2 - p1) - t);
    }
}

/// The cosine changes by no more than one millionth per 36 millionths of a
/// degree between any two angles, and two for rounding: it has no jump, at
/// the seam between one turn and the next or anywhere else.
pub proof fn lemma_cos_gentle(p1: int, p2: int)
    requires
        p1 <= p2,
    ensures
        cos_micro(p1) - cos_micro(p2) <= (p2 - p1) / (STEEPNESS as int) + 2,
        cos_micro(p2) - cos_micro(p1) <= (p2 - p1) / (STEEPNESS as int) + 2,
{
    lemma_cos_bounded(p1);
    lemma_cos_bounded(p2);
    lemma_half_turn_gentle(p1, p2);
    let f1 = half_turn_of(p1);
    let f2 = half_turn_of(p2);
    if f1 <= f2 {
        lemma_half_cos_gentle(f1, f2);
    } else {
        lemma_half_cos_gentle(f2, f1);
    }
}

fn quarter_cosine(d: u64) -> (c: u64)
    requires
        d <= QUARTER_TURN,
    ensures
        c == quarter_cos(d as int),
        c <= UNIT,
{
    proof {
        lemma_quarter_cos_bounded(d as int);
        assert(0 <= d * d <= 8_100_000_000_000_000) by (nonlinear_arith)
            requires
                0 <= d <= 90_000_000,
        ;
    }
    let sq: u64 = d * d;
    let num: u128 = (UNIT as u128) * ((FOUR_QUARTER_SQUARES - 4 * sq) as u128);
    let den: u128 = (FOUR_QUARTER_SQUARES + sq) as u128;
    (num / den) as u64
}

/// Computes the cosine of `phase` millionths of a degree, in millionths.
pub fn cosine(phase: u64) -> (c: i64)
    ensures
        c == cos_micro(phase as int),
        -UNIT <= c <= UNIT,
{
    let r: u64 = phase % FULL_TURN;
    let f: u64 = if r <= HALF_TURN {
        r
    } else {
        FULL_TURN - r
    };
    if f <= QUARTER_TURN {
        quarter_cosine(f) as i64
    } else {
        -(quarter_cosine(HALF_TURN - f) as i64)
    }
}

} // verus!
