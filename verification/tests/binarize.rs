use qrscan::raster::{is_white, GrayImage};
use qrscan::threshold::{adaptive_box_threshold, apply_diff_threshold, threshold};

#[test]
fn only_full_white_reads_as_white() {
    assert!(is_white(255));
    assert!(!is_white(254));
    assert!(!is_white(0));
}

#[test]
fn images_require_matching_storage() {
    assert!(GrayImage::new(2, 3, vec![0u8; 6]).is_some());
    assert!(GrayImage::new(2, 3, vec![0u8; 5]).is_none());
    assert!(GrayImage::new(0, 3, vec![]).is_some());
    assert!(GrayImage::new(20000, 1, vec![0u8; 20000]).is_none());
}

#[test]
fn global_threshold_is_strict() {
    let image = GrayImage::new(4, 1, vec![0, 100, 101, 255]).unwrap();
    let out = threshold(&image, 100);
    assert_eq!(out.pixels, vec![0, 0, 255, 255]);
    assert_eq!(out.width, 4);
    assert_eq!(out.height, 1);
}

#[test]
fn diff_threshold_subtracts_with_saturation() {
    let image = GrayImage::new(3, 1, vec![10, 10, 200]).unwrap();
    let smoothed = vec![10u8, 11, 255];
    // with no allowance nothing exceeds its own smoothed value strictly
    let out = apply_diff_threshold(&image, &smoothed, 0);
    assert_eq!(out.pixels, vec![0, 0, 0]);
    // an allowance of two: 10 > 8 and 10 > 9 pass, 200 > 253 does not
    let out2 = apply_diff_threshold(&image, &smoothed, 2);
    assert_eq!(out2.pixels, vec![255, 255, 0]);
    // saturation: a large threshold empties the bound entirely
    let out3 = apply_diff_threshold(&image, &smoothed, 255);
    assert_eq!(out3.pixels, vec![255, 255, 255]);
}

#[test]
fn box_threshold_compares_against_the_neighbourhood_mean() {
    // a single bright pixel between black ones: the box mean of every pixel
    // of this 3x1 image with radius 1 is (0 + 255 + 0) / 3 = 85, so only the
    // bright pixel rises above its neighbourhood
    let image = GrayImage::new(3, 1, vec![0, 255, 0]).unwrap();
    let out = adaptive_box_threshold(&image, 1, 0);
    assert_eq!(out.pixels, vec![0, 255, 0]);
}

#[test]
fn box_threshold_keeps_a_uniform_image_black() {
    // a uniform image equals its own mean everywhere, and the comparison is
    // strict, so nothing rises above it
    let image = GrayImage::new(4, 4, vec![100u8; 16]).unwrap();
    let out = adaptive_box_threshold(&image, 1, 0);
    assert_eq!(out.pixels, vec![0u8; 16]);
    // with a difference allowance every pixel clears the bar
    let out2 = adaptive_box_threshold(&image, 1, 1);
    assert_eq!(out2.pixels, vec![255u8; 16]);
}
