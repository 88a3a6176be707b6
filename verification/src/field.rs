//! The colour field: three periodic channels over the angle.
//!
//! The angle is a count of millionths of a degree. The first channel rises
//! from `seed` at 0 degrees to `seed + scale` at 180 degrees and falls back.
//! The second and third channels are harmonics: each swings around its
//! level `a` with amplitude `b`, and its phase is `freq` times the distance
//! of the angle to the nearest whole turn. For a whole `freq` that is the
//! plain harmonic `a + b cos(freq * angle)`; for any other `freq` the second
//! half of the turn mirrors the first, so that the wave still closes after
//! one turn and has no jump at the seam.

use vstd::prelude::*;
use vstd::arithmetic::div_mod::lemma_div_is_ordered;
use vstd::arithmetic::div_mod::lemma_div_multiples_vanish;
use vstd::arithmetic::div_mod::lemma_div_pos_is_pos;
use vstd::arithmetic::div_mod::lemma_fundamental_div_mod;
use vstd::arithmetic::div_mod::lemma_mod_bound;
use vstd::arithmetic::div_mod::lemma_mod_multiples_vanish;
use crate::params::ChannelParams;
use crate::params::ColorFieldParams;
use crate::params::UNIT;
use crate::trig::cos_micro;
use crate::trig::cosine;
use crate::trig::half_turn_of;
use crate::trig::lemma_cos_bounded;
use crate::trig::lemma_cos_exact_values;
use crate::trig::lemma_cos_gentle;
use crate::trig::lemma_half_turn_gentle;
use crate::trig::FULL_TURN;
use crate::trig::HALF_TURN;
use crate::trig::STEEPNESS;

verus! {

/// Number of angles at which a render samples the field.
pub const SAMPLE_COUNT: usize = 360;

/// One degree, the distance between two sample angles.
pub const DEGREE: u64 = 1_000_000;

/// One point of the field, in millionths. The channels have no colour
/// meaning of their own and are not confined to [0, 1].
#[derive(Clone, Copy, Debug, PartialEq, Eq, Structural)]
pub struct ColorCoordinate {
    pub c0: i64,
    pub c1: i64,
    pub c2: i64,
}

/// A coordinate brought into the domain of a hue, saturation and lightness
/// colour model: `hue` is a fraction of a turn in [0, 1), `saturation` and
/// `lightness` lie in [0, 1]; all in millionths.
#[derive(Clone, Copy, Debug, PartialEq, Eq, Structural)]
pub struct HslCoordinate {
    pub hue: u32,
    pub saturation: u32,
    pub lightness: u32,
}

/// `amount * cosine / UNIT`, rounded toward zero.
pub open spec fn swing(amount: int, cosine: int) -> int {
    if cosine >= 0 {
        (amount * cosine) / (UNIT as int)
    } else {
        -((amount * (-cosine)) / (UNIT as int))
    }
}

/// The phase of a wave of frequency `freq` at `angle`: `freq` times the
/// distance of the angle to the nearest whole turn, rounded down to a
/// millionth of a degree.
pub open spec fn phase_at(angle: int, freq: int) -> int {
    (freq * half_turn_of(angle)) / (UNIT as int)
}

/// The first channel at `angle`: `seed + scale * (1 - cos angle) / 2`.
pub open spec fn primary_at(angle: int, scale: int, seed: int) -> int {
    seed + (scale * (UNIT - cos_micro(angle))) / (2 * UNIT)
}

/// A harmonic channel at `angle`: `a + b cos(freq * angle)`, with the phase
/// folded as in `phase_at`.
pub open spec fn harmonic_at(angle: int, channel: ChannelParams) -> int {
    channel.a + swing(channel.b as int, cos_micro(phase_at(angle, channel.freq as int)))
}

/// The field at `angle` under `params`.
pub open spec fn field_at(angle: int, params: ColorFieldParams) -> ColorCoordinate {
    ColorCoordinate {
        c0: primary_at(angle, params.scale as int, params.seed as int) as i64,
        c1: harmonic_at(angle, params.channel2) as i64,
        c2: harmonic_at(angle, params.channel3) as i64,
    }
}

/// `level` confined to [0, 1].
pub open spec fn unit_clamped(level: int) -> int {
    if level < 0 {
        0
    } else if level > UNIT {
        UNIT as int
    } else {
        level
    }
}

/// The most that the phase of a wave of frequency `freq` can change over
/// `span` millionths of a degree: `freq * span`, and one for rounding.
pub open spec fn phase_reach(freq: int, span: int) -> int {
    (freq * span) / (UNIT as int) + 1
}

/// The most that a wave of the given amplitude can change while its phase
/// changes by `reach`: the amplitude times the steepest change of the
/// cosine over that much phase, and one for rounding.
pub open spec fn swing_reach(amplitude: int, reach: int) -> int {
    (amplitude * (reach / (STEEPNESS as int) + 2)) / (UNIT as int) + 1
}

/// The first channel stays between `seed` and `seed + scale`.
pub proof fn lemma_primary_bounded(angle: int, scale: int, seed: int)
    requires
        0 <= scale,
    ensures
        seed <= primary_at(angle, scale, seed) <= seed + scale,
{
    lemma_cos_bounded(angle);
    let lift = UNIT - cos_micro(angle);
    assert(0 <= scale * lift <= scale * (2 * UNIT) && scale * (2 * UNIT) == (2 * UNIT) * scale)
        by (nonlinear_arith)
        requires
            0 <= scale,
            0 <= lift <= 2 * UNIT,
    ;
    lemma_div_pos_is_pos(scale * lift, 2 * UNIT);
    lemma_div_is_ordered(scale * lift, scale * (2 * UNIT), 2 * UNIT);
    lemma_div_multiples_vanish(scale, 2 * UNIT);
}

/// A swing never exceeds its amount in either direction.
pub proof fn lemma_swing_bounded(amount: int, cosine: int)
    requires
        0 <= amount,
        -UNIT <= cosine <= UNIT,
    ensures
        -amount <= swing(amount, cosine) <= amount,
        cosine >= 0 ==> swing(amount, cosine) >= 0,
        cosine <= 0 ==> swing(amount, cosine) <= 0,
{
    let m = if cosine >= 0 {
        cosine
    } else {
        -cosine
    };
    assert(0 <= amount * m <= amount * UNIT && (m == 0 ==> amount * m == 0) && amount * UNIT
        == UNIT * amount) by (nonlinear_arith)
        requires
            0 <= amount,
            0 <= m <= UNIT,
    ;
    lemma_div_pos_is_pos(amount * m, UNIT as int);
    lemma_div_is_ordered(amount * m, amount * UNIT, UNIT as int);
    lemma_div_multiples_vanish(amount, UNIT as int);
}

/// A harmonic channel stays within its amplitude of its level.
pub proof fn lemma_harmonic_bounded(angle: int, channel: ChannelParams)
    ensures
        channel.a - channel.b <= harmonic_at(angle, channel) <= channel.a + channel.b,
{
    let phase = phase_at(angle, channel.freq as int);
    lemma_cos_bounded(phase);
    lemma_swing_bounded(channel.b as int, cos_micro(phase));
}

/// Every channel of the field is bounded by the parameters alone, whatever
/// the angle.
pub proof fn lemma_field_bounded(angle: int, params: ColorFieldParams)
    ensures
        params.seed <= field_at(angle, params).c0 <= params.seed + params.scale,
        params.channel2.a - params.channel2.b <= field_at(angle, params).c1
            <= params.channel2.a + params.channel2.b,
        params.channel3.a - params.channel3.b <= field_at(angle, params).c2
            <= params.channel3.a + params.channel3.b,
{
    lemma_primary_bounded(angle, params.scale as int, params.seed as int);
    lemma_harmonic_bounded(angle, params.channel2);
    lemma_harmonic_bounded(angle, params.channel3);
}

/// The field repeats after every full turn of the angle.
pub proof fn lemma_field_periodic(angle: int, turns: int, params: ColorFieldParams)
    ensures
        field_at(angle + turns * FULL_TURN, params) == field_at(angle, params),
{
    lemma_mod_multiples_vanish(turns, angle, FULL_TURN as int);
    assert(FULL_TURN * turns + angle == angle + turns * FULL_TURN) by (nonlinear_arith);
    assert(half_turn_of(angle + turns * FULL_TURN) == half_turn_of(angle));
}

/// The field at the start of a turn and at its end agree.
pub proof fn lemma_field_closes(params: ColorFieldParams)
    ensures
        field_at(0, params) == field_at(FULL_TURN as int, params),
{
    lemma_field_periodic(0, 1, params);
}

/// The field is symmetric about the start of a turn.
pub proof fn lemma_field_even(angle: int, params: ColorFieldParams)
    ensures
        field_at(-angle, params) == field_at(angle, params),
{
    assert(half_turn_of(-angle) == half_turn_of(angle));
}

/// At the start of a turn the first channel is `seed` and each harmonic is
/// at its crest, `a + b`.
pub proof fn lemma_field_at_start(params: ColorFieldParams)
    ensures
        field_at(0, params).c0 == params.seed,
        field_at(0, params).c1 == params.channel2.a + params.channel2.b,
        field_at(0, params).c2 == params.channel3.a + params.channel3.b,
{
    lemma_cos_exact_values();
    assert(half_turn_of(0) == 0);
    let s = params.scale as int;
    assert(s * 0 == 0);
    assert(params.channel2.freq * 0 == 0);
    assert(params.channel3.freq * 0 == 0);
    assert(phase_at(0, params.channel2.freq as int) == 0);
    assert(phase_at(0, params.channel3.freq as int) == 0);
    lemma_div_multiples_vanish(params.channel2.b as int, UNIT as int);
    lemma_div_multiples_vanish(params.channel3.b as int, UNIT as int);
}

/// Two quotients by the same positive divisor differ by no more than the
/// quotient of the difference, and one.
proof fn lemma_quotients_close(n1: int, n2: int, d: int)
    requires
        0 < d,
        n1 <= n2,
    ensures
        0 <= n2 / d - n1 / d <= (n2 - n1) / d + 1,
{
    lemma_fundamental_div_mod(n1, d);
    lemma_fundamental_div_mod(n2, d);
    lemma_fundamental_div_mod(n2 - n1, d);
    lemma_mod_bound(n1, d);
    lemma_mod_bound(n2, d);
    lemma_mod_bound(n2 - n1, d);
    let q1 = n1 / d;
    let q2 = n2 / d;
    let q = (n2 - n1) / d;
    assert(q1 <= q2 && q2 - q1 <= q + 1) by (nonlinear_arith)
        requires
            0 < d,
            n1 == d * q1 + n1 % d,
            n2 == d * q2 + n2 % d,
            n2 - n1 == d * q + (n2 - n1) % d,
            0 <= n1 % d < d,
            0 <= n2 % d < d,
            0 <= (n2 - n1) % d < d,
            n1 <= n2,
    ;
}

/// A swing grows with the cosine, by no more than the amount times the
/// growth of the cosine and one for rounding.
pub proof fn lemma_swing_gentle(amount: int, cosine1: int, cosine2: int)
    requires
        0 <= amount,
        cosine1 <= cosine2,
    ensures
        0 <= swing(amount, cosine2) - swing(amount, cosine1),
        swing(amount, cosine2) - swing(amount, cosine1) <= (amount * (cosine2 - cosine1)) / (UNIT
            as int) + 1,
{
    let u = UNIT as int;
    let m1 = if cosine1 >= 0 {
        cosine1
    } else {
        -cosine1
    };
    let m2 = if cosine2 >= 0 {
        cosine2
    } else {
        -cosine2
    };
    let n1 = amount * m1;
    let n2 = amount * m2;
    let n = amount * (cosine2 - cosine1);
    assert({
        &&& 0 <= n1
        &&& 0 <= n2
        &&& 0 <= n
        &&& cosine1 >= 0 ==> n1 <= n2 && n == n2 - n1
        &&& cosine2 < 0 ==> n2 <= n1 && n == n1 - n2
        &&& cosine1 < 0 && cosine2 >= 0 ==> n == n1 + n2
    }) by (nonlinear_arith)
        requires
            0 <= amount,
            cosine1 <= cosine2,
            m1 == if cosine1 >= 0 {
                cosine1
            } else {
                -cosine1
            },
            m2 == if cosine2 >= 0 {
                cosine2
            } else {
                -cosine2
            },
            n1 == amount * m1,
            n2 == amount * m2,
            n == amount * (cosine2 - cosine1),
    ;
    if cosine1 >= 0 {
        lemma_quotients_close(n1, n2, u);
    } else if cosine2 < 0 {
        lemma_quotients_close(n2, n1, u);
    } else {
        lemma_div_pos_is_pos(n1, u);
        lemma_div_pos_is_pos(n2, u);
        lemma_fundamental_div_mod(n1, u);
        lemma_fundamental_div_mod(n2, u);
        lemma_fundamental_div_mod(n, u);
        lemma_mod_bound(n1, u);
        lemma_mod_bound(n2, u);
        lemma_mod_bound(n, u);
        let q1 = n1 / u;
        let q2 = n2 / u;
        let q = n / u;
        assert(q1 + q2 <= q) by (nonlinear_arith)
            requires
                0 < u,
                n1 == u * q1 + n1 % u,
                n2 == u * q2 + n2 % u,
                n == u * q + n % u,
                n == n1 + n2,
                0 <= n1 % u < u,
                0 <= n2 % u < u,
                0 <= n % u < u,
        ;
    }
}

/// Between two angles the phase of a wave changes by no more than
/// `phase_reach` of its frequency and their distance.
pub proof fn lemma_phase_gentle(angle1: int, angle2: int, freq: int)
    requires
        angle1 <= angle2,
        0 <= freq,
    ensures
        0 <= phase_at(angle1, freq),
        0 <= phase_at(angle2, freq),
        phase_at(angle2, freq) - phase_at(angle1, freq) <= phase_reach(freq, angle2 - angle1),
        phase_at(angle1, freq) - phase_at(angle2, freq) <= phase_reach(freq, angle2 - angle1),
{
    let u = UNIT as int;
    let span = angle2 - angle1;
    let f1 = half_turn_of(angle1);
    let f2 = half_turn_of(angle2);
    lemma_half_turn_gentle(angle1, angle2);
    let n1 = freq * f1;
    let n2 = freq * f2;
    let n = freq * span;
    assert({
        &&& 0 <= n1
        &&& 0 <= n2
        &&& n2 - n1 <= n
        &&& n1 - n2 <= n
    }) by (nonlinear_arith)
        requires
            0 <= freq,
            0 <= f1,
            0 <= f2,
            f2 - f1 <= span,
            f1 - f2 <= span,
            n1 == freq * f1,
            n2 == freq * f2,
            n == freq * span,
    ;
    lemma_div_pos_is_pos(n1, u);
    lemma_div_pos_is_pos(n2, u);
    if n1 <= n2 {
        lemma_quotients_close(n1, n2, u);
        lemma_div_is_ordered(n2 - n1, n, u);
    } else {
        lemma_quotients_close(n2, n1, u);
        lemma_div_is_ordered(n1 - n2, n, u);
    }
}

/// Between two angles the cosine wave `amplitude * cos(phase)` of frequency
/// `freq` changes by no more than `swing_reach` of its amplitude and of the
/// reach of its phase.
pub proof fn lemma_wave_gentle(angle1: int, angle2: int, amplitude: int, freq: int)
    requires
        angle1 <= angle2,
        0 <= amplitude,
        0 <= freq,
    ensures
        ({
            let wave1 = swing(amplitude, cos_micro(phase_at(angle1, freq)));
            let wave2 = swing(amplitude, cos_micro(phase_at(angle2, freq)));
            let bound = swing_reach(amplitude, phase_reach(freq, angle2 - angle1));
            -bound <= wave2 - wave1 <= bound
        }),
{
    lemma_phase_gentle(angle1, angle2, freq);
    let p1 = phase_at(angle1, freq);
    let p2 = phase_at(angle2, freq);
    let reach = phase_reach(freq, angle2 - angle1);
    let c1 = cos_micro(p1);
    let c2 = cos_micro(p2);
    let rise = reach / (STEEPNESS as int) + 2;
    if p1 <= p2 {
        lemma_cos_gentle(p1, p2);
    } else {
        lemma_cos_gentle(p2, p1);
    }
    assert(c2 - c1 <= rise && c1 - c2 <= rise);
    let lo = if c1 <= c2 {
        c1
    } else {
        c2
    };
    let hi = if c1 <= c2 {
        c2
    } else {
        c1
    };
    lemma_swing_gentle(amplitude, lo, hi);
    assert(0 <= amplitude * (hi - lo) <= amplitude * rise) by (nonlinear_arith)
        requires
            0 <= amplitude,
            0 <= hi - lo <= rise,
    ;
    lemma_div_is_ordered(amplitude * (hi - lo), amplitude * rise, UNIT as int);
}

/// Between two angles a harmonic channel changes by no more than
/// `swing_reach` of its amplitude and of the reach of its phase.
pub proof fn lemma_harmonic_gentle(angle1: int, angle2: int, channel: ChannelParams)
    requires
        angle1 <= angle2,
    ensures
        ({
            let bound = swing_reach(
                channel.b as int,
                phase_reach(channel.freq as int, angle2 - angle1),
            );
            -bound <= harmonic_at(angle2, channel) - harmonic_at(angle1, channel) <= bound
        }),
{
    lemma_wave_gentle(angle1, angle2, channel.b as int, channel.freq as int);
}

/// Between two angles the first channel changes by no more than
/// `swing_reach` of `scale` and of the distance of the angles.
pub proof fn lemma_primary_gentle(angle1: int, angle2: int, scale: int, seed: int)
    requires
        angle1 <= angle2,
        0 <= scale,
    ensures
        ({
            let bound = swing_reach(scale, angle2 - angle1);
            -bound <= primary_at(angle2, scale, seed) - primary_at(angle1, scale, seed) <= bound
        }),
{
    let u = UNIT as int;
    let c1 = cos_micro(angle1);
    let c2 = cos_micro(angle2);
    lemma_cos_bounded(angle1);
    lemma_cos_bounded(angle2);
    lemma_cos_gentle(angle1, angle2);
    let rise = (angle2 - angle1) / (STEEPNESS as int) + 2;
    let l1 = u - c1;
    let l2 = u - c2;
    let n1 = scale * l1;
    let n2 = scale * l2;
    let cap = scale * rise;
    assert(0 <= n1 && 0 <= n2 && n2 - n1 <= cap && n1 - n2 <= cap && 0 <= cap)
        by (nonlinear_arith)
        requires
            0 <= scale,
            0 <= l1,
            0 <= l2,
            0 <= rise,
            l2 - l1 <= rise,
            l1 - l2 <= rise,
            n1 == scale * l1,
            n2 == scale * l2,
            cap == scale * rise,
    ;
    let d = 2 * u;
    if n1 <= n2 {
        lemma_quotients_close(n1, n2, d);
        lemma_div_is_ordered(n2 - n1, cap, d);
    } else {
        lemma_quotients_close(n2, n1, d);
        lemma_div_is_ordered(n1 - n2, cap, d);
    }
    vstd::arithmetic::div_mod::lemma_div_is_ordered_by_denominator(cap, u, d);
}

/// The field has no jump: between any two angles, around the turn and
/// across its seam, each channel changes by no more than `swing_reach` of
/// its amplitude and of the reach of its phase.
pub proof fn lemma_field_gentle(angle1: int, angle2: int, params: ColorFieldParams)
    requires
        angle1 <= angle2,
    ensures
        ({
            let span = angle2 - angle1;
            let here = field_at(angle1, params);
            let there = field_at(angle2, params);
            let bound0 = swing_reach(params.scale as int, span);
            let bound1 = swing_reach(
                params.channel2.b as int,
                phase_reach(params.channel2.freq as int, span),
            );
            let bound2 = swing_reach(
                params.channel3.b as int,
                phase_reach(params.channel3.freq as int, span),
            );
            &&& -bound0 <= there.c0 - here.c0 <= bound0
            &&& -bound1 <= there.c1 - here.c1 <= bound1
            &&& -bound2 <= there.c2 - here.c2 <= bound2
        }),
{
    lemma_primary_bounded(angle1, params.scale as int, params.seed as int);
    lemma_primary_bounded(angle2, params.scale as int, params.seed as int);
    lemma_harmonic_bounded(angle1, params.channel2);
    lemma_harmonic_bounded(angle2, params.channel2);
    lemma_harmonic_bounded(angle1, params.channel3);
    lemma_harmonic_bounded(angle2, params.channel3);
    lemma_primary_gentle(angle1, angle2, params.scale as int, params.seed as int);
    lemma_harmonic_gentle(angle1, angle2, params.channel2);
    lemma_harmonic_gentle(angle1, angle2, params.channel3);
}

fn fold(angle: u64) -> (f: u64)
    ensures
        f == half_turn_of(angle as int),
        f <= HALF_TURN,
{
    let r: u64 = angle % FULL_TURN;
    if r <= HALF_TURN {
        r
    } else {
        FULL_TURN - r
    }
}

fn primary(angle: u64, scale: u32, seed: u32) -> (c: i64)
    ensures
        c == primary_at(angle as int, scale as int, seed as int),
        seed <= c <= seed + scale,
{
    let cos: i64 = cosine(angle);
    let lift: u64 = ((UNIT as i64) - cos) as u64;
    proof {
        lemma_primary_bounded(angle as int, scale as int, seed as int);
        assert(0 <= scale * lift <= 0xffff_ffff * 2_000_000) by (nonlinear_arith)
            requires
                0 <= scale <= 0xffff_ffff,
                0 <= lift <= 2_000_000,
        ;
    }
    let rise: u64 = ((scale as u64) * lift) / (2 * (UNIT as u64));
    (seed as i64) + (rise as i64)
}

fn harmonic(folded: u64, channel: &ChannelParams) -> (c: i64)
    requires
        folded <= HALF_TURN,
    ensures
        c == channel.a + swing(
            channel.b as int,
            cos_micro((channel.freq * folded) / (UNIT as int)),
        ),
        channel.a - channel.b <= c <= channel.a + channel.b,
{
    proof {
        assert(0 <= channel.freq * folded <= 0xffff_ffff * 180_000_000) by (nonlinear_arith)
            requires
                0 <= channel.freq <= 0xffff_ffff,
                0 <= folded <= 180_000_000,
        ;
    }
    let phase: u64 = ((channel.freq as u64) * folded) / (UNIT as u64);
    let cos: i64 = cosine(phase);
    proof {
        lemma_swing_bounded(channel.b as int, cos as int);
    }
    if cos >= 0 {
        let m: u64 = cos as u64;
        proof {
            assert(0 <= channel.b * m <= 0xffff_ffff * 1_000_000) by (nonlinear_arith)
                requires
                    0 <= channel.b <= 0xffff_ffff,
                    0 <= m <= 1_000_000,
            ;
        }
        let up: u64 = ((channel.b as u64) * m) / (UNIT as u64);
        (channel.a as i64) + (up as i64)
    } else {
        let m: u64 = (-cos) as u64;
        proof {
            assert(0 <= channel.b * m <= 0xffff_ffff * 1_000_000) by (nonlinear_arith)
                requires
                    0 <= channel.b <= 0xffff_ffff,
                    0 <= m <= 1_000_000,
            ;
        }
        let down: u64 = ((channel.b as u64) * m) / (UNIT as u64);
        (channel.a as i64) - (down as i64)
    }
}

/// Evaluates the field at `angle`, in millionths of a degree. Any angle is
/// accepted; angles a whole number of turns apart give the same coordinate.
/// The result is a function of the angle and the parameters alone.
pub fn sample(angle: u64, params: &ColorFieldParams) -> (c: ColorCoordinate)
    ensures
        c == field_at(angle as int, *params),
{
    let folded: u64 = fold(angle);
    ColorCoordinate {
        c0: primary(angle, params.scale, params.seed),
        c1: harmonic(folded, &params.channel2),
        c2: harmonic(folded, &params.channel3),
    }
}

/// Evaluates the field at each of the 360 sample angles, one per degree of
/// a turn, in order.
pub fn sample_all(params: &ColorFieldParams) -> (samples: Vec<ColorCoordinate>)
    ensures
        samples.len() == SAMPLE_COUNT,
        forall|i: int| 0 <= i < SAMPLE_COUNT ==> samples[i] == field_at(i * DEGREE, *params),
{
    let mut samples: Vec<ColorCoordinate> = Vec::new();
    let mut i: usize = 0;
    while i < SAMPLE_COUNT
        invariant
            i <= SAMPLE_COUNT,
            samples.len() == i,
            forall|j: int| 0 <= j < i ==> samples[j] == field_at(j * DEGREE, *params),
        decreases SAMPLE_COUNT - i,
    {
        let c = sample((i as u64) * DEGREE, params);
        samples.push(c);
        i = i + 1;
    }
    samples
}

impl HslCoordinate {
    /// The coordinate lies in the domain of a colour model: `hue` in
    /// [0, 1), `saturation` and `lightness` in [0, 1].
    pub open spec fn in_domain(self) -> bool {
        &&& self.hue < UNIT
        &&& self.saturation <= UNIT
        &&& self.lightness <= UNIT
    }
}

impl ColorCoordinate {
    /// The coordinate as a hue, saturation and lightness model reads it: the
    /// first channel wraps around the turn, the other two are cut off at 0
    /// and at 1.
    pub open spec fn normalized_spec(self) -> HslCoordinate {
        HslCoordinate {
            hue: ((self.c0 as int) % (UNIT as int)) as u32,
            saturation: unit_clamped(self.c1 as int) as u32,
            lightness: unit_clamped(self.c2 as int) as u32,
        }
    }

    /// Brings the coordinate into the domain of a hue, saturation and
    /// lightness model. No value of any channel is refused.
    pub fn normalized(&self) -> (n: HslCoordinate)
        ensures
            n == self.normalized_spec(),
            n.in_domain(),
    {
        HslCoordinate {
            hue: wrap_unit(self.c0),
            saturation: clamp_unit(self.c1),
            lightness: clamp_unit(self.c2),
        }
    }
}

fn wrap_unit(level: i64) -> (w: u32)
    ensures
        w == (level as int) % (UNIT as int),
        w < UNIT,
{
    if level >= 0 {
        ((level as u64) % (UNIT as u64)) as u32
    } else {
        let below: u64 = (-(level + 1)) as u64;
        let rest: u32 = (below % (UNIT as u64)) as u32;
        proof {
            let u = UNIT as int;
            let turns = (below as int) / u;
            lemma_fundamental_div_mod(below as int, u);
            assert(level == u * (-turns - 1) + (u - 1 - rest)) by (nonlinear_arith)
                requires
                    below == u * turns + rest,
                    level == -below - 1,
            ;
            vstd::arithmetic::div_mod::lemma_fundamental_div_mod_converse(
                level as int,
                u,
                -turns - 1,
                u - 1 - rest,
            );
        }
        (UNIT - 1) - rest
    }
}

fn clamp_unit(level: i64) -> (c: u32)
    ensures
        c == unit_clamped(level as int),
        c <= UNIT,
{
    if level < 0 {
        0
    } else if level > UNIT as i64 {
        UNIT
    } else {
        level as u32
    }
}

} // verus!
