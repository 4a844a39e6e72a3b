//! Binarization of grayscale images: a global threshold and an adaptive
//! threshold against a box-smoothed copy of the image. The smoothing itself
//! comes from an outside filter; the comparison that produces the binary
//! image is verified here.

use vstd::prelude::*;

use crate::raster::GrayImage;

verus! {

/// The pixels of the box-smoothed image that `imageproc::filter::box_filter`
/// computes for the given samples, dimensions and radius: each output sample
/// is the unweighted mean of a `(2*radius+1)`-square window, with boundary
/// pixels repeated. The result depends on the arguments alone.
pub uninterp spec fn box_blurred(pixels: Seq<u8>, width: int, height: int, radius: int) -> Seq<u8>;

/// Relies on `imageproc::filter::box_filter`: convolution with an unweighted
/// mean kernel of side `2*radius + 1`, returning an image of the same
/// dimensions.
#[verifier::external_body]
fn box_blur_pixels(pixels: &Vec<u8>, width: u32, height: u32, radius: u32) -> (r: Vec<u8>)
    requires
        pixels.len() == width * height,
        width <= 16384,
        height <= 16384,
        radius <= 16384,
    ensures
        r@.len() == pixels@.len(),
        r@ == box_blurred(pixels@, width as int, height as int, radius as int),
{
    let buffer = image::GrayImage::from_raw(width, height, pixels.clone()).unwrap();
    imageproc::filter::box_filter(&buffer, radius, radius).into_raw()
}

/// `a - b`, stopping at zero.
pub open spec fn spec_saturating_sub(a: int, b: int) -> int {
    if a >= b {
        a - b
    } else {
        0
    }
}

/// Binarizes an image against a global threshold: a sample strictly above
/// `threshold` becomes white (255), anything else black (0).
#[verifier::loop_isolation(false)]
pub fn threshold(image: &GrayImage, level: u8) -> (r: GrayImage)
    requires
        image.wf(),
    ensures
        r.wf(),
        r.width == image.width,
        r.height == image.height,
        forall|i: int|
            0 <= i < r.pixels.len() ==> #[trigger] r.pixels[i] == (if image.pixels[i] > level {
                255u8
            } else {
                0u8
            }),
{
    let mut pixels: Vec<u8> = Vec::new();
    let mut i: usize = 0;
    while i < image.pixels.len()
        invariant
            i <= image.pixels.len(),
            pixels@.len() == i,
            forall|j: int|
                0 <= j < i ==> #[trigger] pixels@[j] == (if image.pixels[j] > level {
                    255u8
                } else {
                    0u8
                }),
        decreases image.pixels.len() - i,
    {
        let value: u8 = if image.pixels[i] > level {
            255
        } else {
            0
        };
        pixels.push(value);
        i += 1;
    }
    GrayImage { width: image.width, height: image.height, pixels }
}

/// Binarizes an image against a smoothed copy of itself: a sample strictly
/// above the corresponding smoothed sample minus `diff_threshold` (stopping
/// at zero) becomes white, anything else black.
#[verifier::loop_isolation(false)]
pub fn apply_diff_threshold(image: &GrayImage, smoothed: &Vec<u8>, diff_threshold: u8) -> (r:
    GrayImage)
    requires
        image.wf(),
        smoothed.len() == image.pixels.len(),
    ensures
        r.wf(),
        r.width == image.width,
        r.height == image.height,
        forall|i: int|
            0 <= i < r.pixels.len() ==> #[trigger] r.pixels[i] == (if image.pixels[i]
                > spec_saturating_sub(smoothed[i] as int, diff_threshold as int) {
                255u8
            } else {
                0u8
            }),
{
    let mut pixels: Vec<u8> = Vec::new();
    let mut i: usize = 0;
    while i < image.pixels.len()
        invariant
            i <= image.pixels.len(),
            smoothed.len() == image.pixels.len(),
            pixels@.len() == i,
            forall|j: int|
                0 <= j < i ==> #[trigger] pixels@[j] == (if image.pixels[j] > spec_saturating_sub(
                    smoothed[j] as int,
                    diff_threshold as int,
                ) {
                    255u8
                } else {
                    0u8
                }),
        decreases image.pixels.len() - i,
    {
        let bound: u8 = if smoothed[i] >= diff_threshold {
            smoothed[i] - diff_threshold
        } else {
            0
        };
        let value: u8 = if image.pixels[i] > bound {
            255
        } else {
            0
        };
        pixels.push(value);
        i += 1;
    }
    GrayImage { width: image.width, height: image.height, pixels }
}

/// Binarizes an image adaptively against a box-smoothed copy of itself: a
/// sample strictly above its neighbourhood mean minus `diff_threshold`
/// becomes white, anything else black.
pub fn adaptive_box_threshold(image: &GrayImage, radius: u32, diff_threshold: u8) -> (r: GrayImage)
    requires
        image.wf(),
        radius <= 16384,
    ensures
        r.wf(),
        r.width == image.width,
        r.height == image.height,
        forall|i: int|
            0 <= i < r.pixels.len() ==> #[trigger] r.pixels[i] == (if image.pixels[i]
                > spec_saturating_sub(
                box_blurred(
                    image.pixels@,
                    image.width as int,
                    image.height as int,
                    radius as int,
                )[i] as int,
                diff_threshold as int,
            ) {
                255u8
            } else {
                0u8
            }),
{
    let smoothed = box_blur_pixels(
        &image.pixels,
        image.width as u32,
        image.height as u32,
        radius,
    );
    apply_diff_threshold(image, &smoothed, diff_threshold)
}

} // verus!
