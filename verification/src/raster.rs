use vstd::prelude::*;

verus! {

/// Mathematical value of a raster: explicit dimensions and row-major samples.
pub struct RasterModel {
    pub width: nat,
    pub height: nat,
    pub data: Seq<u8>,
}

impl RasterModel {
    /// A raster is well formed when it holds exactly one sample per pixel.
    pub open spec fn wf(self) -> bool {
        self.data.len() == self.width * self.height
    }
}

/// The condition the library signals on malformed input.
#[derive(Clone, Copy, Debug, PartialEq, Eq, Structural)]
pub enum DitherError {
    /// The sample buffer does not hold exactly `width * height` samples.
    InvalidRaster,
}

/// A single-channel 8-bit image: row-major samples with explicit dimensions.
pub struct Raster {
    pub width: usize,
    pub height: usize,
    pub data: Vec<u8>,
}

impl View for Raster {
    type V = RasterModel;

    open spec fn view(&self) -> RasterModel {
        RasterModel { width: self.width as nat, height: self.height as nat, data: self.data@ }
    }
}

/// The product of two values below 2^64 stays within `u128`.
pub(crate) proof fn lemma_u64_range_mul_fits_u128(a: int, b: int)
    requires
        0 <= a < 0x1_0000_0000_0000_0000,
        0 <= b < 0x1_0000_0000_0000_0000,
    ensures
        0 <= a * b <= u128::MAX,
{
    assert(0 <= a * b < 0x1_0000_0000_0000_0000_0000_0000_0000_0000) by (nonlinear_arith)
        requires
            0 <= a < 0x1_0000_0000_0000_0000,
            0 <= b < 0x1_0000_0000_0000_0000,
    ;
}

impl Raster {
    /// Builds a raster from row-major samples, rejecting a buffer whose
    /// length does not match the dimensions.
    pub fn new(width: usize, height: usize, data: Vec<u8>) -> (r: Result<Raster, DitherError>)
        ensures
            r is Ok <==> data@.len() == width * height,
            r matches Ok(raster) ==> raster@ == (RasterModel {
                width: width as nat,
                height: height as nat,
                data: data@,
            }) && raster@.wf(),
            r matches Err(e) ==> e == DitherError::InvalidRaster,
    {
        proof {
            lemma_u64_range_mul_fits_u128(width as int, height as int);
        }
        if (width as u128) * (height as u128) == (data.len() as u128) {
            Ok(Raster { width, height, data })
        } else {
            Err(DitherError::InvalidRaster)
        }
    }

    /// Number of samples per row.
    pub fn width(&self) -> (w: usize)
        ensures
            w == self@.width,
    {
        self.width
    }

    /// Number of rows.
    pub fn height(&self) -> (h: usize)
        ensures
            h == self@.height,
    {
        self.height
    }

    /// The row-major sample buffer.
    pub fn samples(&self) -> (s: &Vec<u8>)
        ensures
            s@ == self@.data,
    {
        &self.data
    }

    /// Consumes the raster and hands the sample buffer back to the caller.
    pub fn into_samples(self) -> (s: Vec<u8>)
        ensures
            s@ == self@.data,
    {
        self.data
    }
}

impl Clone for Raster {
    /// A fresh raster with the same dimensions and samples.
    fn clone(&self) -> (r: Self)
        ensures
            r@ == self@,
    {
        let mut data: Vec<u8> = Vec::new();
        let mut i: usize = 0;
        while i < self.data.len()
            invariant
                i <= self.data@.len(),
                data@ == self.data@.take(i as int),
            decreases self.data@.len() - i,
        {
            data.push(self.data[i]);
            proof {
                assert(data@ =~= self.data@.take(i + 1));
            }
            i = i + 1;
        }
        proof {
            assert(data@ =~= self.data@);
        }
        Raster { width: self.width, height: self.height, data }
    }
}

} // verus!
