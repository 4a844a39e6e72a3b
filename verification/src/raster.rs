//! Grayscale raster images, stored row-major as one byte per pixel.
//!
//! The scanner and sampler work on binarized images, whose samples are 0
//! (black) or 255 (white); `GrayImage` itself admits any byte values so that
//! thresholding can consume and produce the same type.

use vstd::prelude::*;

verus! {

/// Largest accepted width or height, in pixels. Keeping the dimensions below
/// this bound keeps every fixed-point computation downstream free of overflow.
pub const MAX_DIMENSION: usize = 16384;

/// A rectangular grid of single-channel 8-bit samples, row-major:
/// the sample at column `x`, row `y` is `pixels[y * width + x]`.
pub struct GrayImage {
    pub width: usize,
    pub height: usize,
    pub pixels: Vec<u8>,
}

impl GrayImage {
    /// The storage matches the dimensions and the dimensions are bounded.
    pub open spec fn wf(&self) -> bool {
        &&& self.pixels.len() == self.width * self.height
        &&& self.width <= MAX_DIMENSION
        &&& self.height <= MAX_DIMENSION
    }

    /// The sample at column `x`, row `y`.
    pub open spec fn spec_pixel(&self, x: int, y: int) -> u8 {
        self.pixels[y * self.width + x]
    }

    /// Builds an image from row-major samples; rejects mismatched or
    /// oversized storage.
    pub fn new(width: usize, height: usize, pixels: Vec<u8>) -> (r: Option<GrayImage>)
        ensures
            match r {
                Some(img) => {
                    &&& img.wf()
                    &&& img.width == width
                    &&& img.height == height
                    &&& img.pixels == pixels
                },
                None => !(GrayImage { width, height, pixels }).wf(),
            },
    {
        if width <= MAX_DIMENSION && height <= MAX_DIMENSION {
            proof {
                mul_le_mono_both(width as int, MAX_DIMENSION as int, height as int,
                    MAX_DIMENSION as int);
            }
            if pixels.len() == width * height {
                Some(GrayImage { width, height, pixels })
            } else {
                None
            }
        } else {
            None
        }
    }

    /// The sample at column `x`, row `y`.
    pub fn pixel(&self, x: usize, y: usize) -> (p: u8)
        requires
            self.wf(),
            x < self.width,
            y < self.height,
        ensures
            p == self.spec_pixel(x as int, y as int),
    {
        proof {
            assert(y * self.width + x < self.width * self.height) by (nonlinear_arith)
                requires
                    0 <= y < self.height,
                    0 <= x < self.width,
            ;
        }
        self.pixels[y * self.width + x]
    }
}

/// A sample is white when it equals 255; a binarized image holds only 0 and
/// 255, so anything below 255 reads as black.
pub fn is_white(pixel: u8) -> (r: bool)
    ensures
        r == (pixel == 255),
{
    pixel == 255
}

/// Multiplication on non-negative values is monotone in both arguments.
pub proof fn mul_le_mono_both(a: int, b: int, c: int, d: int)
    requires
        0 <= a <= b,
        0 <= c <= d,
    ensures
        a * c <= b * d,
{
    assert(a * c <= b * d) by (nonlinear_arith)
        requires
            0 <= a <= b,
            0 <= c <= d,
    ;
}

} // verus!
