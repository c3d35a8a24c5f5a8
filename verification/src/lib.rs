//! A verified dithering suite for single-channel 8-bit rasters.
//!
//! The library quantizes a greyscale image to the levels of a caller-supplied
//! quantizer with one of five strategies: three error-diffusing kernels
//! (Floyd-Steinberg, Atkinson, Sierra Lite), ordered (Bayer) dithering against
//! a fixed threshold matrix, and a seeded random-threshold pass. Every
//! transform preserves the raster's dimensions, writes only representable
//! levels, and is a pure function of its inputs (including the seed, for the
//! random variant).

pub mod diffusion;
pub mod laws;
pub mod ordered;
pub mod quantize;
pub mod random;
pub mod raster;
pub mod suite;

pub use quantize::BiLevel;
pub use quantize::Quantizer;
pub use raster::DitherError;
pub use raster::Raster;
pub use raster::RasterModel;
pub use suite::all_dithers;
pub use suite::DitherKind;
