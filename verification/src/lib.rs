//! A procedural colour wave in fixed-point arithmetic.
//!
//! A parameter record ([`params`]) shapes three periodic channels over one
//! full turn of an angle ([`field`], on the cosine of [`trig`]). A render
//! ([`wave`]) samples the field at 360 equally spaced angles, hands each
//! sample to two colour models that the caller supplies, and lays the
//! colours out as two stacked bands of a 720 x 300 RGBA raster ([`raster`]).
//! A record is made by hand, taken from the reset policy, or drawn at
//! random with a bias that keeps the wave inside the domain of the colour
//! models ([`sampler`]).
//!
//! Every real quantity is an integer count of millionths, so that all of
//! the arithmetic is exact and its properties are proved: the field repeats
//! after a full turn, stays within bounds that the parameters give, and
//! changes between two angles by no more than their distance allows.

pub mod field;
pub mod params;
pub mod raster;
pub mod sampler;
pub mod trig;
pub mod wave;

pub use field::sample;
pub use field::sample_all;
pub use field::ColorCoordinate;
pub use field::HslCoordinate;
pub use params::ChannelParams;
pub use params::ColorFieldParams;
pub use raster::rasterize;
pub use raster::PixelBuffer;
pub use raster::Rgb;
pub use raster::Rgba;
pub use sampler::from_draws;
pub use sampler::normal_approx;
pub use sampler::random;
pub use sampler::ChannelDraws;
pub use sampler::ParamDraws;
pub use wave::render;
