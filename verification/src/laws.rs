use vstd::prelude::*;

use crate::diffusion::atkinson_den;
use crate::diffusion::atkinson_kernel;
use crate::diffusion::clamp_sample;
use crate::diffusion::diffuse_prefix;
use crate::diffusion::diffuse_spec;
use crate::diffusion::distribute;
use crate::diffusion::floyd_steinberg_den;
use crate::diffusion::floyd_steinberg_kernel;
use crate::diffusion::in_bounds;
use crate::diffusion::kernel_ok;
use crate::diffusion::lemma_builtin_kernels_ok;
use crate::diffusion::lemma_prefix_properties;
use crate::diffusion::quantized_level;
use crate::diffusion::sierra_lite_den;
use crate::diffusion::sierra_lite_kernel;
use crate::diffusion::to_signed;
use crate::diffusion::Weight;
use crate::quantize::Quantizer;
use crate::raster::RasterModel;
use crate::suite::dither_of;
use crate::suite::DitherKind;

verus! {

/// Dimension preservation: every strategy yields one sample per input pixel,
/// so the output raster is well formed over the input's dimensions.
pub proof fn lemma_dimension_preservation<Q: Quantizer>(
    kind: DitherKind,
    q: Q,
    m: RasterModel,
    seed: u64,
)
    requires
        m.wf(),
    ensures
        dither_of(kind, q, m, seed).len() == m.data.len(),
        (RasterModel { data: dither_of(kind, q, m, seed), ..m }).wf(),
{
    lemma_builtin_kernels_ok();
    match kind {
        DitherKind::FloydSteinberg => {
            lemma_diffuse_len(q, m, floyd_steinberg_kernel(), floyd_steinberg_den());
        },
        DitherKind::Atkinson => {
            lemma_diffuse_len(q, m, atkinson_kernel(), atkinson_den());
        },
        DitherKind::SierraLite => {
            lemma_diffuse_len(q, m, sierra_lite_kernel(), sierra_lite_den());
        },
        DitherKind::Bayer => {},
        DitherKind::RandomThreshold => {},
    }
}

/// An error-diffusing pass yields one sample per input pixel.
proof fn lemma_diffuse_len<Q: Quantizer>(q: Q, m: RasterModel, kernel: Seq<Weight>, den: int)
    requires
        m.wf(),
        kernel_ok(kernel, den),
    ensures
        diffuse_spec(q, m.data, m.width as int, m.height as int, kernel, den).len()
            == m.data.len(),
{
    let w = m.width as int;
    let h = m.height as int;
    lemma_prefix_properties(q, to_signed(m.data), w, h, w * h, kernel, den);
}

/// Range validity: every sample of every strategy's output is a member of
/// the quantizer's representable set.
pub proof fn lemma_range_validity<Q: Quantizer>(kind: DitherKind, q: Q, m: RasterModel, seed: u64)
    requires
        m.wf(),
    ensures
        forall|i: int|
            0 <= i < dither_of(kind, q, m, seed).len() ==> q.representable(
                #[trigger] dither_of(kind, q, m, seed)[i],
            ),
{
    lemma_builtin_kernels_ok();
    let out = dither_of(kind, q, m, seed);
    match kind {
        DitherKind::FloydSteinberg => {
            lemma_diffuse_representable(q, m, floyd_steinberg_kernel(), floyd_steinberg_den());
        },
        DitherKind::Atkinson => {
            lemma_diffuse_representable(q, m, atkinson_kernel(), atkinson_den());
        },
        DitherKind::SierraLite => {
            lemma_diffuse_representable(q, m, sierra_lite_kernel(), sierra_lite_den());
        },
        DitherKind::Bayer => {
            assert forall|i: int| 0 <= i < out.len() implies q.representable(
                #[trigger] out[i],
            ) by {
                q.lemma_level_representable(
                    clamp_sample(
                        m.data[i] + crate::ordered::bayer_threshold(
                            i % (m.width as int),
                            i / (m.width as int),
                        ),
                    ) as u8,
                );
            }
        },
        DitherKind::RandomThreshold => {
            assert forall|i: int| 0 <= i < out.len() implies q.representable(
                #[trigger] out[i],
            ) by {
                q.lemma_level_representable(
                    clamp_sample(
                        m.data[i] + crate::random::state_byte(
                            crate::random::state_after(seed, (i + 1) as nat),
                        ) - 128,
                    ) as u8,
                );
            }
        },
    }
}

/// Every sample of an error-diffusing pass is a level the quantizer
/// assigned.
proof fn lemma_diffuse_representable<Q: Quantizer>(
    q: Q,
    m: RasterModel,
    kernel: Seq<Weight>,
    den: int,
)
    requires
        m.wf(),
        kernel_ok(kernel, den),
    ensures
        forall|i: int|
            0 <= i < diffuse_spec(q, m.data, m.width as int, m.height as int, kernel, den).len()
                ==> q.representable(
                #[trigger] diffuse_spec(q, m.data, m.width as int, m.height as int, kernel, den)[i],
            ),
{
    let w = m.width as int;
    let h = m.height as int;
    let init = to_signed(m.data);
    let out = diffuse_spec(q, m.data, w, h, kernel, den);
    lemma_prefix_properties(q, init, w, h, w * h, kernel, den);
    let full = diffuse_prefix(q, init, w, h, w * h, kernel, den);
    assert forall|i: int| 0 <= i < out.len() implies q.representable(#[trigger] out[i]) by {
        let level = quantized_level(q, diffuse_prefix(q, init, w, h, i, kernel, den), i);
        assert(full[i] == level as int);
        assert(out[i] == level);
        q.lemma_level_representable(
            clamp_sample(diffuse_prefix(q, init, w, h, i, kernel, den)[i]) as u8,
        );
    }
}

/// Determinism: every strategy's output is a pure function of the input
/// raster, the quantizer, and (for the random pass) the seed, so
/// byte-identical inputs yield byte-identical outputs across repeated runs.
pub proof fn lemma_determinism<Q: Quantizer>(
    kind: DitherKind,
    q: Q,
    m1: RasterModel,
    m2: RasterModel,
    seed1: u64,
    seed2: u64,
)
    requires
        m1 == m2,
        seed1 == seed2,
    ensures
        dither_of(kind, q, m1, seed1) == dither_of(kind, q, m2, seed2),
{
}

/// No-op on empty input: a raster with no pixels comes back empty, whatever
/// the strategy.
pub proof fn lemma_empty_noop<Q: Quantizer>(kind: DitherKind, q: Q, m: RasterModel, seed: u64)
    requires
        m.wf(),
        m.data.len() == 0,
    ensures
        dither_of(kind, q, m, seed) == m.data,
        dither_of(kind, q, m, seed) == Seq::<u8>::empty(),
{
    let w = m.width as int;
    let h = m.height as int;
    assert(w * h == 0);
    match kind {
        DitherKind::FloydSteinberg => {
            assert(dither_of(kind, q, m, seed) =~= m.data);
        },
        DitherKind::Atkinson => {
            assert(dither_of(kind, q, m, seed) =~= m.data);
        },
        DitherKind::SierraLite => {
            assert(dither_of(kind, q, m, seed) =~= m.data);
        },
        DitherKind::Bayer => {
            assert(dither_of(kind, q, m, seed) =~= m.data);
        },
        DitherKind::RandomThreshold => {
            assert(dither_of(kind, q, m, seed) =~= m.data);
        },
    }
    assert(m.data =~= Seq::<u8>::empty());
}

/// On a one-pixel raster, distributing error touches nothing: every kernel
/// target lies off the raster.
proof fn lemma_single_pixel_distribute(
    state: Seq<int>,
    err: int,
    kernel: Seq<Weight>,
    den: int,
)
    requires
        forall|t: int| 0 <= t < kernel.len() ==> (#[trigger] kernel[t]).valid(den),
    ensures
        distribute(state, 1, 1, 0, 0, err, kernel, den) == state,
    decreases kernel.len(),
{
    if kernel.len() == 0 {
    } else {
        let k = kernel[0];
        assert(k.valid(den));
        assert(!in_bounds(1, 1, 0 + k.dx, 0 + k.dy));
        lemma_single_pixel_distribute(state, err, kernel.drop_first(), den);
    }
}

/// Edge-clipping correctness: each error-diffusing strategy maps a
/// one-pixel raster to exactly the quantized value of that pixel; there is
/// no neighbor to receive error, and every share is dropped.
pub proof fn lemma_edge_clipping<Q: Quantizer>(kind: DitherKind, q: Q, m: RasterModel, seed: u64)
    requires
        m.wf(),
        m.width == 1,
        m.height == 1,
        kind == DitherKind::FloydSteinberg || kind == DitherKind::Atkinson || kind
            == DitherKind::SierraLite,
    ensures
        dither_of(kind, q, m, seed) == seq![q.level_of(m.data[0])],
{
    lemma_builtin_kernels_ok();
    match kind {
        DitherKind::FloydSteinberg => {
            lemma_diffuse_single_pixel(q, m, floyd_steinberg_kernel(), floyd_steinberg_den());
        },
        DitherKind::Atkinson => {
            lemma_diffuse_single_pixel(q, m, atkinson_kernel(), atkinson_den());
        },
        DitherKind::SierraLite => {
            lemma_diffuse_single_pixel(q, m, sierra_lite_kernel(), sierra_lite_den());
        },
        DitherKind::Bayer => {},
        DitherKind::RandomThreshold => {},
    }
}

/// An error-diffusing pass over a one-pixel raster quantizes the pixel and
/// drops the whole error.
proof fn lemma_diffuse_single_pixel<Q: Quantizer>(
    q: Q,
    m: RasterModel,
    kernel: Seq<Weight>,
    den: int,
)
    requires
        m.wf(),
        m.width == 1,
        m.height == 1,
        kernel_ok(kernel, den),
    ensures
        diffuse_spec(q, m.data, 1, 1, kernel, den) == seq![q.level_of(m.data[0])],
{
    let init = to_signed(m.data);
    let p0 = diffuse_prefix(q, init, 1, 1, 0, kernel, den);
    assert(p0 == init);
    let level = quantized_level(q, init, 0);
    assert(clamp_sample(init[0]) == m.data[0]);
    assert(level == q.level_of(m.data[0]));
    lemma_single_pixel_distribute(init.update(0, level as int), clamp_sample(init[0]) - level, kernel, den);
    let p1 = diffuse_prefix(q, init, 1, 1, 1, kernel, den);
    assert(p1 == init.update(0, level as int));
    assert(diffuse_spec(q, m.data, 1, 1, kernel, den) =~= seq![q.level_of(m.data[0])]);
}

} // verus!
