use vstd::prelude::*;

use crate::diffusion::atkinson_spec;
use crate::diffusion::dither_atkinson;
use crate::diffusion::dither_floyd_steinberg;
use crate::diffusion::dither_sierra_lite;
use crate::diffusion::floyd_steinberg_spec;
use crate::diffusion::sierra_lite_spec;
use crate::ordered::bayer_spec;
use crate::ordered::dither_bayer;
use crate::quantize::Quantizer;
use crate::random::dither_random_threshold;
use crate::random::random_threshold_spec;
use crate::random::RandomSource;
use crate::raster::DitherError;
use crate::raster::Raster;
use crate::raster::RasterModel;

verus! {

/// The five dithering strategies the suite runs.
#[derive(Clone, Copy, Debug, PartialEq, Eq, Structural)]
pub enum DitherKind {
    FloydSteinberg,
    Atkinson,
    SierraLite,
    Bayer,
    RandomThreshold,
}

/// The raster the given strategy produces from `m`, with the random pass
/// drawing from a fresh stream at `seed`.
pub open spec fn dither_of<Q: Quantizer>(kind: DitherKind, q: Q, m: RasterModel, seed: u64) -> Seq<
    u8,
> {
    match kind {
        DitherKind::FloydSteinberg => floyd_steinberg_spec(
            q,
            m.data,
            m.width as int,
            m.height as int,
        ),
        DitherKind::Atkinson => atkinson_spec(q, m.data, m.width as int, m.height as int),
        DitherKind::SierraLite => sierra_lite_spec(q, m.data, m.width as int, m.height as int),
        DitherKind::Bayer => bayer_spec(q, m.data, m.width as int),
        DitherKind::RandomThreshold => random_threshold_spec(q, m.data, seed),
    }
}

/// The order in which the suite reports its results.
pub open spec fn suite_order() -> Seq<DitherKind> {
    seq![
        DitherKind::FloydSteinberg,
        DitherKind::Atkinson,
        DitherKind::SierraLite,
        DitherKind::Bayer,
        DitherKind::RandomThreshold,
    ]
}

/// Runs every strategy on its own copy of `image` and returns the labelled
/// results in a fixed order; the random pass draws from a fresh stream at
/// `seed`. The input raster is left untouched.
pub fn all_dithers<Q: Quantizer>(image: &Raster, q: &Q, seed: u64) -> (out: Result<
    Vec<(DitherKind, Raster)>,
    DitherError,
>)
    ensures
        out is Ok <==> image@.wf(),
        out matches Err(e) ==> e == DitherError::InvalidRaster,
        out matches Ok(v) ==> {
            &&& v@.len() == suite_order().len()
            &&& forall|t: int|
                0 <= t < v@.len() ==> (#[trigger] v@[t]).0 == suite_order()[t] && v@[t].1@
                    == (RasterModel { data: dither_of(suite_order()[t], *q, image@, seed), ..image@ })
        },
{
    let mut out: Vec<(DitherKind, Raster)> = Vec::new();

    let mut work = image.clone();
    match dither_floyd_steinberg(&mut work, q) {
        Ok(()) => {},
        Err(e) => {
            return Err(e);
        },
    }
    out.push((DitherKind::FloydSteinberg, work));

    let mut work = image.clone();
    match dither_atkinson(&mut work, q) {
        Ok(()) => {},
        Err(e) => {
            return Err(e);
        },
    }
    out.push((DitherKind::Atkinson, work));

    let mut work = image.clone();
    match dither_sierra_lite(&mut work, q) {
        Ok(()) => {},
        Err(e) => {
            return Err(e);
        },
    }
    out.push((DitherKind::SierraLite, work));

    let mut work = image.clone();
    match dither_bayer(&mut work, q) {
        Ok(()) => {},
        Err(e) => {
            return Err(e);
        },
    }
    out.push((DitherKind::Bayer, work));

    let mut work = image.clone();
    let mut rng = RandomSource::new(seed);
    match dither_random_threshold(&mut work, q, &mut rng) {
        Ok(()) => {},
        Err(e) => {
            return Err(e);
        },
    }
    out.push((DitherKind::RandomThreshold, work));

    Ok(out)
}

} // verus!
