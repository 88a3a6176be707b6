//! The two policies that produce a parameter record: the fixed reset record
//! is `ColorFieldParams::default`, and this module holds the random one.
//!
//! A random record is a function of fifty uniform draws. `scale` and `seed`
//! are one draw each. Every other field is bell-shaped: the mean of eight
//! draws from [0, 1), stretched over the range of the field. The range of a
//! channel's `b` depends on the `a` drawn just before it, so that the
//! harmonic `a + b cos(..)` never leaves [0, 1].

use vstd::prelude::*;
use rand::rngs::ThreadRng;
use crate::field::field_at;
use crate::field::lemma_field_bounded;
use crate::params::ChannelParams;
use crate::params::ColorFieldParams;
use crate::params::SEED_MAX;
use crate::params::UNIT;

verus! {

/// Number of uniform draws that are averaged into one bell-shaped value.
pub const DRAWS_PER_VALUE: usize = 8;

/// Upper end of the range from which a random `freq` is taken, 5.0.
pub const RANDOM_FREQ_MAX: u32 = 5_000_000;

/// The generator that `rand::thread_rng` hands out. Nothing is known of its
/// state.
#[verifier::external_type_specification]
#[verifier::external_body]
pub struct ExThreadRng(rand::rngs::ThreadRng);

/// The uniform draws behind the three fields of one channel, each below
/// `UNIT`.
#[derive(Clone, Copy, Debug)]
pub struct ChannelDraws {
    pub a: [u32; 8],
    pub b: [u32; 8],
    pub freq: [u32; 8],
}

/// The uniform draws behind one random parameter record: `scale` below
/// `UNIT`, `seed` below `SEED_MAX`, and those of the two channels.
#[derive(Clone, Copy, Debug)]
pub struct ParamDraws {
    pub scale: u32,
    pub seed: u32,
    pub channel2: ChannelDraws,
    pub channel3: ChannelDraws,
}

/// Eight draws, each in [0, 1).
pub open spec fn unit_draws(draws: Seq<u32>) -> bool {
    &&& draws.len() == DRAWS_PER_VALUE
    &&& forall|i: int| 0 <= i < DRAWS_PER_VALUE ==> draws[i] < UNIT
}

/// Sum of eight draws.
pub open spec fn draw_total(draws: Seq<u32>) -> int {
    draws[0] + draws[1] + draws[2] + draws[3] + draws[4] + draws[5] + draws[6] + draws[7]
}

/// The mean of eight draws stretched over [`min`, `max`]:
/// `min + total * (max - min) / 8`, rounded down to a millionth.
pub open spec fn bell(draws: Seq<u32>, min: int, max: int) -> int {
    min + (draw_total(draws) * (max - min)) / (DRAWS_PER_VALUE * UNIT)
}

/// The smaller of `a` and `1 - a`: the room a harmonic around level `a` has
/// before it leaves [0, 1].
pub open spec fn headroom(a: int) -> int {
    if a <= UNIT - a {
        a
    } else {
        UNIT - a
    }
}

/// One channel of the random policy. `a` is bell-shaped over [0, 1]; `b` is
/// bell-shaped over the headroom of `a`, or over the upper half of it if
/// `upper_half` is set; `freq` is bell-shaped over [0, 5].
pub open spec fn channel_from(draws: ChannelDraws, upper_half: bool) -> ChannelParams {
    let a = bell(draws.a@, 0, UNIT as int);
    let room = headroom(a);
    let floor = if upper_half {
        room / 2
    } else {
        0
    };
    ChannelParams {
        a: a as u32,
        b: bell(draws.b@, floor, room) as u32,
        freq: bell(draws.freq@, 0, RANDOM_FREQ_MAX as int) as u32,
    }
}

/// The random policy as a function of its draws. Channel 2 takes its `b`
/// from the upper half of its headroom, channel 3 from all of it.
pub open spec fn params_from(draws: ParamDraws) -> ColorFieldParams {
    ColorFieldParams {
        scale: draws.scale,
        seed: draws.seed,
        channel2: channel_from(draws.channel2, true),
        channel3: channel_from(draws.channel3, false),
    }
}

/// What the random policy guarantees of every record it produces: each
/// channel's `b` fits in the headroom of its `a`, that of channel 2 in the
/// upper half of it, and no `freq` exceeds 5.
pub open spec fn biased(params: ColorFieldParams) -> bool {
    &&& params.scale < UNIT
    &&& params.seed < SEED_MAX
    &&& params.channel2.a < UNIT
    &&& headroom(params.channel2.a as int) / 2 <= params.channel2.b <= headroom(
        params.channel2.a as int,
    )
    &&& params.channel2.freq <= RANDOM_FREQ_MAX
    &&& params.channel3.a < UNIT
    &&& params.channel3.b <= headroom(params.channel3.a as int)
    &&& params.channel3.freq <= RANDOM_FREQ_MAX
}

impl ChannelDraws {
    /// Every draw lies in [0, 1).
    pub open spec fn valid(self) -> bool {
        &&& unit_draws(self.a@)
        &&& unit_draws(self.b@)
        &&& unit_draws(self.freq@)
    }

    /// Tells whether every draw lies in [0, 1).
    pub fn is_valid(&self) -> (r: bool)
        ensures
            r == self.valid(),
    {
        all_below_unit(&self.a) && all_below_unit(&self.b) && all_below_unit(&self.freq)
    }
}

impl ParamDraws {
    /// `scale` lies in [0, 1), `seed` in [0, 10), and every other draw in
    /// [0, 1).
    pub open spec fn valid(self) -> bool {
        &&& self.scale < UNIT
        &&& self.seed < SEED_MAX
        &&& self.channel2.valid()
        &&& self.channel3.valid()
    }

    /// Tells whether every draw lies in its range.
    pub fn is_valid(&self) -> (r: bool)
        ensures
            r == self.valid(),
    {
        self.scale < UNIT && self.seed < SEED_MAX && self.channel2.is_valid()
            && self.channel3.is_valid()
    }
}

fn all_below_unit(draws: &[u32; 8]) -> (r: bool)
    ensures
        r == unit_draws(draws@),
{
    let mut i: usize = 0;
    while i < DRAWS_PER_VALUE
        invariant
            i <= DRAWS_PER_VALUE,
            forall|j: int| 0 <= j < i ==> draws@[j] < UNIT,
        decreases DRAWS_PER_VALUE - i,
    {
        if draws[i] >= UNIT {
            return false;
        }
        i = i + 1;
    }
    true
}

/// A bell-shaped value lies in its range, and below its upper end unless
/// the range is a single point.
pub proof fn lemma_bell_in_range(draws: Seq<u32>, min: int, max: int)
    requires
        unit_draws(draws),
        min <= max,
    ensures
        min <= bell(draws, min, max) <= max,
        min < max ==> bell(draws, min, max) < max,
        min == max ==> bell(draws, min, max) == min,
{
    let total = draw_total(draws);
    let width = max - min;
    let whole = DRAWS_PER_VALUE * UNIT;
    assert(whole == 8_000_000);
    assert(0 <= total < whole);
    assert(0 <= total * width <= width * whole && (width > 0 ==> total * width < width * whole)
        && (width == 0 ==> total * width == 0) && width * whole == whole * width)
        by (nonlinear_arith)
        requires
            0 <= total < whole,
            0 <= width,
    ;
    vstd::arithmetic::div_mod::lemma_div_pos_is_pos(total * width, whole);
    vstd::arithmetic::div_mod::lemma_div_is_ordered(total * width, width * whole, whole);
    vstd::arithmetic::div_mod::lemma_div_multiples_vanish(width, whole);
    if width > 0 {
        vstd::arithmetic::div_mod::lemma_div_by_multiple_is_strongly_ordered(
            total * width,
            width * whole,
            width,
            whole,
        );
    }
}

/// One channel of the random policy: `a` lies in [0, 1), `b` in the
/// headroom of `a` (in its upper half if asked), `freq` in [0, 5).
pub proof fn lemma_channel_biased(draws: ChannelDraws, upper_half: bool)
    requires
        draws.valid(),
    ensures
        ({
            let c = channel_from(draws, upper_half);
            let room = headroom(c.a as int);
            &&& c.a < UNIT
            &&& 0 <= room <= UNIT / 2
            &&& c.b <= room
            &&& upper_half ==> room / 2 <= c.b
            &&& c.freq < RANDOM_FREQ_MAX
        }),
{
    lemma_bell_in_range(draws.a@, 0, UNIT as int);
    let a = bell(draws.a@, 0, UNIT as int);
    let room = headroom(a);
    let floor = if upper_half {
        room / 2
    } else {
        0
    };
    lemma_bell_in_range(draws.b@, floor, room);
    lemma_bell_in_range(draws.freq@, 0, RANDOM_FREQ_MAX as int);
}

/// Every record of the random policy is in range and carries its bias.
pub proof fn lemma_random_biased(draws: ParamDraws)
    requires
        draws.valid(),
    ensures
        params_from(draws).in_range(),
        biased(params_from(draws)),
{
    lemma_channel_biased(draws.channel2, true);
    lemma_channel_biased(draws.channel3, false);
}

/// Under a record that carries the bias of the random policy both harmonics
/// stay in [0, 1] at every angle, so that a colour model reads them as they
/// are.
pub proof fn lemma_biased_field_in_unit(angle: int, params: ColorFieldParams)
    requires
        biased(params),
    ensures
        0 <= field_at(angle, params).c1 <= UNIT,
        0 <= field_at(angle, params).c2 <= UNIT,
        field_at(angle, params).normalized_spec().saturation == field_at(angle, params).c1,
        field_at(angle, params).normalized_spec().lightness == field_at(angle, params).c2,
{
    lemma_field_bounded(angle, params);
}

/// Averages eight uniform draws into a bell-shaped value over
/// [`min`, `max`].
pub fn normal_approx(draws: &[u32; 8], min: u32, max: u32) -> (r: u32)
    requires
        unit_draws(draws@),
        min <= max,
    ensures
        r == bell(draws@, min as int, max as int),
        min <= r <= max,
{
    proof {
        lemma_bell_in_range(draws@, min as int, max as int);
    }
    let total: u64 = draws[0] as u64 + draws[1] as u64 + draws[2] as u64 + draws[3] as u64
        + draws[4] as u64 + draws[5] as u64 + draws[6] as u64 + draws[7] as u64;
    let width: u64 = (max - min) as u64;
    proof {
        assert(0 <= total * width <= 8_000_000 * 0xffff_ffff) by (nonlinear_arith)
            requires
                0 <= total <= 8_000_000,
                0 <= width <= 0xffff_ffff,
        ;
    }
    let lift: u64 = (total * width) / ((DRAWS_PER_VALUE as u64) * (UNIT as u64));
    min + (lift as u32)
}

fn channel_from_draws(draws: &ChannelDraws, upper_half: bool) -> (c: ChannelParams)
    requires
        draws.valid(),
    ensures
        c == channel_from(*draws, upper_half),
{
    proof {
        lemma_channel_biased(*draws, upper_half);
    }
    let a: u32 = normal_approx(&draws.a, 0, UNIT);
    let room: u32 = if a <= UNIT - a {
        a
    } else {
        UNIT - a
    };
    let floor: u32 = if upper_half {
        room / 2
    } else {
        0
    };
    let b: u32 = normal_approx(&draws.b, floor, room);
    let freq: u32 = normal_approx(&draws.freq, 0, RANDOM_FREQ_MAX);
    ChannelParams { a, b, freq }
}

/// Applies the random policy to the given draws.
pub fn from_draws(draws: &ParamDraws) -> (params: ColorFieldParams)
    requires
        draws.valid(),
    ensures
        params == params_from(*draws),
        params.in_range(),
        biased(params),
{
    proof {
        lemma_random_biased(*draws);
    }
    ColorFieldParams {
        scale: draws.scale,
        seed: draws.seed,
        channel2: channel_from_draws(&draws.channel2, true),
        channel3: channel_from_draws(&draws.channel3, false),
    }
}

/// Draws a number below `bound` with `rand::Rng::gen_range` on the range
/// `0..bound`. That call panics on an empty range, so `bound` is positive.
/// All that is claimed of the result is that it lies in the range.
#[verifier::external_body]
fn draw_below(rng: &mut ThreadRng, bound: u32) -> (r: u32)
    requires
        bound > 0,
    ensures
        r < bound,
{
    rand::Rng::gen_range(rng, 0..bound)
}

fn draw_eight(rng: &mut ThreadRng) -> (draws: [u32; 8])
    ensures
        unit_draws(draws@),
{
    [
        draw_below(rng, UNIT),
        draw_below(rng, UNIT),
        draw_below(rng, UNIT),
        draw_below(rng, UNIT),
        draw_below(rng, UNIT),
        draw_below(rng, UNIT),
        draw_below(rng, UNIT),
        draw_below(rng, UNIT),
    ]
}

fn draw_channel(rng: &mut ThreadRng) -> (draws: ChannelDraws)
    ensures
        draws.valid(),
{
    let a = draw_eight(rng);
    let b = draw_eight(rng);
    let freq = draw_eight(rng);
    ChannelDraws { a, b, freq }
}

/// Takes from the generator the fifty draws of one random record, in the
/// order scale, seed, channel 2 (`a`, `b`, `freq`), channel 3.
pub fn draw(rng: &mut ThreadRng) -> (draws: ParamDraws)
    ensures
        draws.valid(),
{
    let scale: u32 = draw_below(rng, UNIT);
    let seed: u32 = draw_below(rng, SEED_MAX);
    let channel2 = draw_channel(rng);
    let channel3 = draw_channel(rng);
    ParamDraws { scale, seed, channel2, channel3 }
}

/// Produces a random parameter record: the random policy applied to fresh
/// draws from the generator. Whatever the generator hands out, the record is
/// in range and carries the bias of the policy.
pub fn random(rng: &mut ThreadRng) -> (params: ColorFieldParams)
    ensures
        exists|draws: ParamDraws| #[trigger] draws.valid() && params == params_from(draws),
        params.in_range(),
        biased(params),
{
    let draws = draw(rng);
    from_draws(&draws)
}

} // verus!
