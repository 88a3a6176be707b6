//! The render: from a parameter record to the finished raster.
//!
//! The field is sampled once per degree of a turn. Each sample is brought
//! into the domain of a hue, saturation and lightness model and handed to
//! two colour models, which the caller supplies. What the first returns
//! fills the sample's stripe in the upper band, what the second returns the
//! same stripe in the lower band.

use vstd::prelude::*;
use crate::field::field_at;
use crate::field::sample_all;
use crate::field::HslCoordinate;
use crate::field::DEGREE;
use crate::params::ColorFieldParams;
use crate::raster::rasterize;
use crate::raster::PixelBuffer;
use crate::raster::Rgb;
use crate::raster::STRIPES;

verus! {

/// What a colour model is asked to convert for sample `i`.
pub open spec fn model_input(i: int, params: ColorFieldParams) -> HslCoordinate {
    field_at(i * DEGREE, params).normalized_spec()
}

/// `colors` holds, for each of the 360 samples in order, a colour that
/// `model` returned for that sample.
pub open spec fn converted<M: Fn(HslCoordinate) -> Rgb>(
    model: M,
    params: ColorFieldParams,
    colors: Seq<Rgb>,
) -> bool {
    &&& colors.len() == STRIPES
    &&& forall|i: int|
        0 <= i < STRIPES ==> call_ensures(model, (model_input(i, params),), #[trigger] colors[i])
}

/// Every input that a render hands to a colour model lies in its domain.
pub proof fn lemma_model_input_in_domain(i: int, params: ColorFieldParams)
    ensures
        model_input(i, params).in_domain(),
{
}

/// Renders the wave of `params`: stripe `i` of the upper band is what
/// `model_a` returns for sample `i`, stripe `i` of the lower band what
/// `model_b` returns for it. Each model is called once per sample, on a
/// coordinate in its domain.
pub fn render<A, B>(params: &ColorFieldParams, model_a: A, model_b: B) -> (buffer: PixelBuffer)
    where
        A: Fn(HslCoordinate) -> Rgb,
        B: Fn(HslCoordinate) -> Rgb,
    requires
        forall|c: HslCoordinate| #[trigger] c.in_domain() ==> call_requires(model_a, (c,)),
        forall|c: HslCoordinate| #[trigger] c.in_domain() ==> call_requires(model_b, (c,)),
    ensures
        exists|top: Seq<Rgb>, bottom: Seq<Rgb>|
            converted(model_a, *params, top) && converted(model_b, *params, bottom)
                && #[trigger] buffer.shows(top, bottom),
{
    let samples = sample_all(params);
    let mut top = [Rgb { r: 0, g: 0, b: 0 }; STRIPES];
    let mut bottom = [Rgb { r: 0, g: 0, b: 0 }; STRIPES];
    let mut i: usize = 0;
    while i < STRIPES
        invariant
            i <= STRIPES,
            samples.len() == STRIPES,
            forall|j: int| 0 <= j < STRIPES ==> samples[j] == field_at(j * DEGREE, *params),
            forall|c: HslCoordinate| #[trigger] c.in_domain() ==> call_requires(model_a, (c,)),
            forall|c: HslCoordinate| #[trigger] c.in_domain() ==> call_requires(model_b, (c,)),
            forall|j: int|
                0 <= j < i ==> call_ensures(model_a, (model_input(j, *params),), #[trigger] top@[j]),
            forall|j: int|
                0 <= j < i ==> call_ensures(
                    model_b,
                    (model_input(j, *params),),
                    #[trigger] bottom@[j],
                ),
        decreases STRIPES - i,
    {
        let coordinate = samples[i].normalized();
        assert(coordinate.in_domain());
        top[i] = model_a(coordinate);
        bottom[i] = model_b(coordinate);
        i = i + 1;
    }
    let buffer = rasterize(&top, &bottom);
    proof {
        assert(converted(model_a, *params, top@));
        assert(converted(model_b, *params, bottom@));
        assert(buffer.shows(top@, bottom@));
    }
    buffer
}

} // verus!
