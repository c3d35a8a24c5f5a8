use vstd::prelude::*;

use crate::diffusion::clamp_sample;
use crate::diffusion::check_raster;
use crate::quantize::Quantizer;
use crate::raster::DitherError;
use crate::raster::Raster;
use crate::raster::RasterModel;

verus! {

/// The successor of a generator state: a linear congruential step modulo
/// 2^64.
pub open spec fn next_state(s: u64) -> u64 {
    (((s as int) * 6364136223846793005 + 1442695040888963407) % 0x1_0000_0000_0000_0000) as u64
}

/// The byte a generator state yields: its most significant byte.
pub open spec fn state_byte(s: u64) -> u8 {
    (s >> 56) as u8
}

/// The generator state after `n` draws from `seed`.
pub open spec fn state_after(seed: u64, n: nat) -> u64
    decreases n,
{
    if n == 0 {
        seed
    } else {
        next_state(state_after(seed, (n - 1) as nat))
    }
}

/// An explicit, seedable pseudo-random stream: the injectable randomness
/// source of the random-threshold pass. Two sources built from the same seed
/// yield the same bytes.
pub struct RandomSource {
    state: u64,
}

impl View for RandomSource {
    type V = u64;

    closed spec fn view(&self) -> u64 {
        self.state
    }
}

impl RandomSource {
    /// A fresh stream at the given seed.
    pub fn new(seed: u64) -> (r: RandomSource)
        ensures
            r@ == seed,
    {
        RandomSource { state: seed }
    }

    /// Advances the stream one step and yields the new state's byte.
    pub fn next_byte(&mut self) -> (b: u8)
        ensures
            final(self)@ == next_state(old(self)@),
            b == state_byte(next_state(old(self)@)),
    {
        proof {
            crate::raster::lemma_u64_range_mul_fits_u128(
                self.state as int,
                6364136223846793005,
            );
        }
        let p: u128 = (self.state as u128) * 6364136223846793005u128 + 1442695040888963407u128;
        let ns: u64 = (p % 0x1_0000_0000_0000_0000u128) as u64;
        self.state = ns;
        proof {
            assert(ns == next_state(old(self)@));
            assert(ns >> 56 < 256) by (bit_vector);
        }
        (ns >> 56) as u8
    }
}

/// The raster a random-threshold pass produces from a given seed: pixel `i`
/// has the stream's `i`-th byte, centered to a bias in -128..=127, added to
/// its value, is clamped to the sample range, and is quantized.
pub open spec fn random_threshold_spec<Q: Quantizer>(q: Q, data: Seq<u8>, seed: u64) -> Seq<u8> {
    Seq::new(
        data.len(),
        |i: int|
            q.level_of(
                clamp_sample(
                    data[i] + state_byte(state_after(seed, (i + 1) as nat)) - 128,
                ) as u8,
            ),
    )
}

/// Quantizes the raster by random-threshold dithering: a per-pixel random
/// bias drawn from the caller's stream, with no error propagation. The
/// output is a pure function of the raster and the stream's state, so a
/// caller that reuses a seed reproduces the pass exactly.
#[verifier::loop_isolation(false)]
pub fn dither_random_threshold<Q: Quantizer>(
    raster: &mut Raster,
    q: &Q,
    rng: &mut RandomSource,
) -> (r: Result<(), DitherError>)
    ensures
        r is Ok <==> old(raster)@.wf(),
        !old(raster)@.wf() ==> *final(raster) == *old(raster) && *final(rng) == *old(rng) && r
            == Result::<(), DitherError>::Err(DitherError::InvalidRaster),
        old(raster)@.wf() ==> final(raster)@ == (RasterModel {
            data: random_threshold_spec(*q, old(raster)@.data, old(rng)@),
            ..old(raster)@
        }) && final(rng)@ == state_after(old(rng)@, old(raster)@.data.len()),
{
    if !check_raster(raster) {
        return Err(DitherError::InvalidRaster);
    }
    let ghost orig = raster@.data;
    let ghost seed = rng@;
    let n = raster.data.len();
    let mut i: usize = 0;
    while i < n
        invariant
            i <= n,
            n == orig.len(),
            raster.data@.len() == n,
            raster.width == old(raster).width,
            raster.height == old(raster).height,
            rng@ == state_after(seed, i as nat),
            forall|j: int|
                0 <= j < i ==> #[trigger] raster.data@[j] == random_threshold_spec(
                    *q,
                    orig,
                    seed,
                )[j],
            forall|j: int| i <= j < n ==> #[trigger] raster.data@[j] == orig[j],
        decreases n - i,
    {
        let b: u8 = rng.next_byte();
        proof {
            assert(state_after(seed, (i + 1) as nat) == next_state(state_after(seed, i as nat)));
            assert(b == state_byte(state_after(seed, (i + 1) as nat)));
        }
        let adjusted: i32 = raster.data[i] as i32 + b as i32 - 128;
        let biased: u8 = if adjusted < 0 {
            0
        } else if adjusted > 255 {
            255
        } else {
            adjusted as u8
        };
        proof {
            assert(biased as int == clamp_sample(
                orig[i as int] + state_byte(state_after(seed, (i + 1) as nat)) - 128,
            ));
        }
        let level = q.quantize(biased);
        raster.data.set(i, level);
        i = i + 1;
    }
    proof {
        assert(raster.data@ =~= random_threshold_spec(*q, orig, seed));
    }
    Ok(())
}

} // verus!
