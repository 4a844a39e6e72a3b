use qrscan::detect_qr_codes;
use qrscan::decode::{ErrorCorrectionLevel, Mask};
use qrscan::position::find_position_marker_triples;
use qrscan::position_markers::{
    cluster_position_marker_hints, detect_position_marker_hints, detect_position_markers,
    PositionMarker,
};
use qrscan::raster::GrayImage;

/// A white image of the given dimensions.
fn white_image(width: usize, height: usize) -> Vec<u8> {
    vec![255u8; width * height]
}

/// Whether module `(r, c)` of a 7x7 finder pattern is dark: the outer ring,
/// and the 3x3 center.
fn finder_module_dark(r: usize, c: usize) -> bool {
    r == 0 || r == 6 || c == 0 || c == 6 || ((2..=4).contains(&r) && (2..=4).contains(&c))
}

/// Draws a finder pattern of `m` pixels per module centered at `(cx, cy)`.
fn draw_finder(pixels: &mut Vec<u8>, width: usize, cx: usize, cy: usize, m: usize) {
    let half = 7 * m / 2;
    let left = cx - half;
    let top = cy - half;
    for r in 0..7 {
        for c in 0..7 {
            if finder_module_dark(r, c) {
                for dy in 0..m {
                    for dx in 0..m {
                        let x = left + c * m + dx;
                        let y = top + r * m + dy;
                        pixels[y * width + x] = 0;
                    }
                }
            }
        }
    }
}

fn three_marker_image() -> GrayImage {
    // three finder patterns of three pixels per module, 42 pixels apart:
    // the corners of a version-1 symbol, kept clear of the image borders so
    // that every pattern has white on both sides of each scan line
    let mut pixels = white_image(67, 67);
    draw_finder(&mut pixels, 67, 12, 12, 3);
    draw_finder(&mut pixels, 67, 54, 12, 3);
    draw_finder(&mut pixels, 67, 12, 54, 3);
    GrayImage::new(67, 67, pixels).unwrap()
}

#[test]
fn single_pattern_gives_one_marker_and_no_symbol() {
    let mut pixels = white_image(63, 63);
    draw_finder(&mut pixels, 63, 31, 31, 3);
    let image = GrayImage::new(63, 63, pixels).unwrap();
    let hints = detect_position_marker_hints(&image);
    // hints from column scans carry an exact x coordinate; row scans an exact y
    assert!(hints.iter().any(|h| h.center.0 % 256 == 0));
    assert!(hints.iter().any(|h| h.center.1 % 256 == 0));
    let markers = cluster_position_marker_hints(&hints);
    assert_eq!(markers.len(), 1);
    let triples = find_position_marker_triples(&markers);
    assert_eq!(triples.len(), 0);
    assert_eq!(detect_qr_codes(&image).len(), 0);
}

#[test]
fn three_patterns_give_three_markers_and_one_triple() {
    let image = three_marker_image();
    let markers = detect_position_markers(&image);
    assert_eq!(markers.len(), 3);
    let triples = find_position_marker_triples(&markers);
    assert_eq!(triples.len(), 1);
    let t = &triples[0];
    // the corners land within one pixel (256 units) of the drawn centers
    assert!((t.top_left.0 - 12 * 256).abs() <= 256);
    assert!((t.top_left.1 - 12 * 256).abs() <= 256);
    assert!((t.top_right.0 - 54 * 256).abs() <= 256);
    assert!((t.top_right.1 - 12 * 256).abs() <= 256);
    assert!((t.bottom_left.0 - 12 * 256).abs() <= 256);
    assert!((t.bottom_left.1 - 54 * 256).abs() <= 256);
    // each marker is about 21 pixels wide
    assert!((t.mean_size - 21 * 256).abs() <= 256);
}

#[test]
fn rotated_labelling_is_rejected() {
    // the same three centers handed over as exact markers: only the
    // labelling with the corner marker as top-left and the clockwise
    // orientation is accepted
    let markers = vec![
        PositionMarker { center: (12 * 256, 12 * 256), size: 21 * 256 },
        PositionMarker { center: (12 * 256, 54 * 256), size: 21 * 256 },
        PositionMarker { center: (54 * 256, 12 * 256), size: 21 * 256 },
    ];
    let triples = find_position_marker_triples(&markers);
    assert_eq!(triples.len(), 1);
    let t = &triples[0];
    assert_eq!(t.top_left, (12 * 256, 12 * 256));
    assert_eq!(t.top_right, (54 * 256, 12 * 256));
    assert_eq!(t.bottom_left, (12 * 256, 54 * 256));
}

#[test]
fn version_one_symbol_is_sampled() {
    let image = three_marker_image();
    let codes = detect_qr_codes(&image);
    assert_eq!(codes.len(), 1);
    let (modules, format) = &codes[0];
    assert_eq!(modules.version.0, 1);
    assert_eq!(modules.bits.len(), 21);
    for column in &modules.bits {
        assert_eq!(column.len(), 21);
    }
    // corner and center modules of the three finder patterns are dark
    assert!(modules.bits[0][0]);
    assert!(modules.bits[3][3]);
    assert!(modules.bits[20][0]);
    assert!(modules.bits[17][3]);
    assert!(modules.bits[0][20]);
    assert!(modules.bits[3][17]);
    // the area between the markers is light
    assert!(!modules.bits[10][10]);
    // with no data modules set, the raw format bits are all light and the
    // decoded fields equal the fixed mask's leading bits: 10 and 101
    assert_eq!(format.error_correction_level, ErrorCorrectionLevel::H);
    assert_eq!(format.mask, Mask::M101);
}

#[test]
fn mirrored_image_gives_mirrored_marker() {
    let mut pixels = white_image(63, 63);
    draw_finder(&mut pixels, 63, 15, 10, 3);
    let image = GrayImage::new(63, 63, pixels.clone()).unwrap();
    let mut mirrored_pixels = white_image(63, 63);
    for y in 0..63 {
        for x in 0..63 {
            mirrored_pixels[y * 63 + (62 - x)] = pixels[y * 63 + x];
        }
    }
    let mirrored = GrayImage::new(63, 63, mirrored_pixels).unwrap();
    let markers = detect_position_markers(&image);
    let mirrored_markers = detect_position_markers(&mirrored);
    assert_eq!(markers.len(), 1);
    assert_eq!(mirrored_markers.len(), 1);
    // centers agree up to the clustering tolerance of four pixels
    let expected_x = 62 * 256 - markers[0].center.0;
    assert!((mirrored_markers[0].center.0 - expected_x).abs() <= 4 * 256);
    assert!((mirrored_markers[0].center.1 - markers[0].center.1).abs() <= 4 * 256);
}

#[test]
fn blank_image_gives_nothing() {
    let image = GrayImage::new(40, 30, white_image(40, 30)).unwrap();
    assert_eq!(detect_position_marker_hints(&image).len(), 0);
    assert_eq!(detect_position_markers(&image).len(), 0);
    assert_eq!(detect_qr_codes(&image).len(), 0);
}

#[test]
fn empty_dimensions_give_nothing() {
    let no_columns = GrayImage::new(0, 5, vec![]).unwrap();
    assert_eq!(detect_qr_codes(&no_columns).len(), 0);
    let no_rows = GrayImage::new(5, 0, vec![]).unwrap();
    assert_eq!(detect_qr_codes(&no_rows).len(), 0);
}
