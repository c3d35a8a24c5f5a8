use vstd::prelude::*;

verus! {

/// The quantization policy the caller plugs into every dithering pass: a pure
/// map from an 8-bit sample to the nearest representable output level.
///
/// `level_of` is the mathematical statement of the policy, `quantize` the
/// executable one, and `representable` the set of levels the policy may
/// produce; every level the policy returns must be representable.
pub trait Quantizer: Sized {
    /// The level the policy assigns to a sample.
    spec fn level_of(&self, v: u8) -> u8;

    /// Whether a sample is one of the policy's output levels.
    spec fn representable(&self, v: u8) -> bool;

    /// Every assigned level is a member of the representable set.
    proof fn lemma_level_representable(&self, v: u8)
        ensures
            self.representable(self.level_of(v)),
    ;

    /// Executable quantization, faithful to `level_of`.
    fn quantize(&self, v: u8) -> (r: u8)
        ensures
            r == self.level_of(v),
    ;
}

/// The bilevel (black/white) quantizer: samples at or above 128 map to 255,
/// samples below map to 0.
pub struct BiLevel;

impl Quantizer for BiLevel {
    open spec fn level_of(&self, v: u8) -> u8 {
        if v >= 128 {
            255
        } else {
            0
        }
    }

    open spec fn representable(&self, v: u8) -> bool {
        v == 0 || v == 255
    }

    proof fn lemma_level_representable(&self, v: u8) {
    }

    fn quantize(&self, v: u8) -> (r: u8) {
        if v >= 128 {
            255
        } else {
            0
        }
    }
}

} // verus!
