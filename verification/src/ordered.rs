use vstd::prelude::*;

use crate::diffusion::clamp_sample;
use crate::diffusion::check_raster;
use crate::quantize::Quantizer;
use crate::raster::DitherError;
use crate::raster::Raster;
use crate::raster::RasterModel;

verus! {

/// The 2 by 2 ordered-dithering threshold matrix, tiled over the raster by
/// `(x mod 2, y mod 2)`: row 0 holds 0 and 128, row 1 holds 192 and 64.
pub open spec fn bayer_threshold(x: int, y: int) -> int {
    if y % 2 == 0 {
        if x % 2 == 0 {
            0
        } else {
            128
        }
    } else {
        if x % 2 == 0 {
            192
        } else {
            64
        }
    }
}

/// The raster a Bayer ordered pass produces: each pixel independently has
/// its tile's threshold added as a bias, is clamped to the sample range, and
/// is quantized.
pub open spec fn bayer_spec<Q: Quantizer>(q: Q, data: Seq<u8>, w: int) -> Seq<u8> {
    Seq::new(
        data.len(),
        |i: int| q.level_of(clamp_sample(data[i] + bayer_threshold(i % w, i / w)) as u8),
    )
}

/// Quantizes the raster by Bayer ordered dithering: a pure per-pixel
/// function of position and value, with no error propagation.
#[verifier::loop_isolation(false)]
pub fn dither_bayer<Q: Quantizer>(raster: &mut Raster, q: &Q) -> (r: Result<(), DitherError>)
    ensures
        r is Ok <==> old(raster)@.wf(),
        !old(raster)@.wf() ==> *final(raster) == *old(raster) && r == Result::<
            (),
            DitherError,
        >::Err(DitherError::InvalidRaster),
        old(raster)@.wf() ==> final(raster)@ == (RasterModel {
            data: bayer_spec(*q, old(raster)@.data, old(raster)@.width as int),
            ..old(raster)@
        }),
{
    if !check_raster(raster) {
        return Err(DitherError::InvalidRaster);
    }
    let ghost orig = raster@.data;
    let ghost w = raster@.width as int;
    let width = raster.width;
    let n = raster.data.len();
    proof {
        if width == 0 {
            assert(raster@.width * raster@.height == 0) by (nonlinear_arith)
                requires
                    raster@.width == 0,
            ;
        }
    }
    let mut i: usize = 0;
    while i < n
        invariant
            i <= n,
            n == orig.len(),
            raster.data@.len() == n,
            raster.width == width,
            raster.height == old(raster).height,
            n > 0 ==> width > 0,
            width as int == w,
            forall|j: int| 0 <= j < i ==> #[trigger] raster.data@[j] == bayer_spec(*q, orig, w)[j],
            forall|j: int| i <= j < n ==> #[trigger] raster.data@[j] == orig[j],
        decreases n - i,
    {
        let x = i % width;
        let y = i / width;
        let bias: u16 = if y % 2 == 0 {
            if x % 2 == 0 {
                0
            } else {
                128
            }
        } else {
            if x % 2 == 0 {
                192
            } else {
                64
            }
        };
        let sum: u32 = raster.data[i] as u32 + bias as u32;
        let biased: u8 = if sum > 255 {
            255
        } else {
            sum as u8
        };
        proof {
            assert(bias as int == bayer_threshold(i as int % w, i as int / w));
            assert(biased as int == clamp_sample(orig[i as int] + bayer_threshold(
                i as int % w,
                i as int / w,
            )));
        }
        let level = q.quantize(biased);
        raster.data.set(i, level);
        i = i + 1;
    }
    proof {
        assert(raster.data@ =~= bayer_spec(*q, orig, w));
    }
    Ok(())
}

} // verus!
