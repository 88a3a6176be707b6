//! The parameter record that configures one render.

use vstd::prelude::*;

verus! {

/// The fixed-point representation of 1.0: every real quantity of the
/// library is an integer count of millionths.
pub const UNIT: u32 = 1_000_000;

/// Upper end of the range of `seed`, 10.0.
pub const SEED_MAX: u32 = 10_000_000;

/// Upper end of the range of a channel's `freq`, 10.0.
pub const FREQ_MAX: u32 = 10_000_000;

/// Shape of one harmonic channel: the level `a` it swings around, the
/// amplitude `b` of the swing and its frequency `freq`, in millionths.
#[derive(Clone, Copy, Debug, PartialEq, Eq, Structural)]
pub struct ChannelParams {
    pub a: u32,
    pub b: u32,
    pub freq: u32,
}

/// Configuration of one render, in millionths.
#[derive(Clone, Copy, Debug, PartialEq, Eq, Structural)]
pub struct ColorFieldParams {
    pub scale: u32,
    pub seed: u32,
    pub channel2: ChannelParams,
    pub channel3: ChannelParams,
}

/// The smaller of `value` and `limit`.
pub open spec fn capped(value: u32, limit: u32) -> u32 {
    if value <= limit {
        value
    } else {
        limit
    }
}

fn cap(value: u32, limit: u32) -> (r: u32)
    ensures
        r == capped(value, limit),
{
    if value <= limit {
        value
    } else {
        limit
    }
}

impl ChannelParams {
    /// `a` and `b` lie in [0, 1] and `freq` in [0, 10].
    pub open spec fn in_range(self) -> bool {
        &&& self.a <= UNIT
        &&& self.b <= UNIT
        &&& self.freq <= FREQ_MAX
    }

    /// The channel with each field brought down to the end of its range.
    pub open spec fn clamped_spec(self) -> ChannelParams {
        ChannelParams {
            a: capped(self.a, UNIT),
            b: capped(self.b, UNIT),
            freq: capped(self.freq, FREQ_MAX),
        }
    }

    /// Tells whether every field lies in its range.
    pub fn is_in_range(&self) -> (r: bool)
        ensures
            r == self.in_range(),
    {
        self.a <= UNIT && self.b <= UNIT && self.freq <= FREQ_MAX
    }

    /// Brings each field that exceeds its range down to the end of it.
    pub fn clamped(&self) -> (r: ChannelParams)
        ensures
            r == self.clamped_spec(),
            r.in_range(),
            self.in_range() ==> r == *self,
    {
        ChannelParams {
            a: cap(self.a, UNIT),
            b: cap(self.b, UNIT),
            freq: cap(self.freq, FREQ_MAX),
        }
    }
}

impl ColorFieldParams {
    /// `scale` lies in [0, 1], `seed` in [0, 10], and both channels are in
    /// range.
    pub open spec fn in_range(self) -> bool {
        &&& self.scale <= UNIT
        &&& self.seed <= SEED_MAX
        &&& self.channel2.in_range()
        &&& self.channel3.in_range()
    }

    /// The hand-tuned record that a reset goes back to: scale 0.2, seed 0,
    /// channel 2 (0.5, 0.5, 1.0), channel 3 (0.5, 0.35, 1.0).
    pub open spec fn reset_value() -> ColorFieldParams {
        ColorFieldParams {
            scale: 200_000,
            seed: 0,
            channel2: ChannelParams { a: 500_000, b: 500_000, freq: 1_000_000 },
            channel3: ChannelParams { a: 500_000, b: 350_000, freq: 1_000_000 },
        }
    }

    /// The record with each field brought down to the end of its range.
    pub open spec fn clamped_spec(self) -> ColorFieldParams {
        ColorFieldParams {
            scale: capped(self.scale, UNIT),
            seed: capped(self.seed, SEED_MAX),
            channel2: self.channel2.clamped_spec(),
            channel3: self.channel3.clamped_spec(),
        }
    }

    /// Tells whether every field lies in its range.
    pub fn is_in_range(&self) -> (r: bool)
        ensures
            r == self.in_range(),
    {
        self.scale <= UNIT && self.seed <= SEED_MAX && self.channel2.is_in_range()
            && self.channel3.is_in_range()
    }

    /// Brings each field that exceeds its range down to the end of it.
    pub fn clamped(&self) -> (r: ColorFieldParams)
        ensures
            r == self.clamped_spec(),
            r.in_range(),
            self.in_range() ==> r == *self,
    {
        ColorFieldParams {
            scale: cap(self.scale, UNIT),
            seed: cap(self.seed, SEED_MAX),
            channel2: self.channel2.clamped(),
            channel3: self.channel3.clamped(),
        }
    }
}

impl Default for ColorFieldParams {
    /// The reset record. It is a fixed value, so any two calls agree.
    fn default() -> (r: ColorFieldParams)
        ensures
            r == ColorFieldParams::reset_value(),
            r.in_range(),
    {
        ColorFieldParams {
            scale: 200_000,
            seed: 0,
            channel2: ChannelParams { a: 500_000, b: 500_000, freq: 1_000_000 },
            channel3: ChannelParams { a: 500_000, b: 350_000, freq: 1_000_000 },
        }
    }
}

} // verus!
