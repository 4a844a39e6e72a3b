use qrscan::math::{angle, euclidean_distance, isqrt, vec_add, vec_between_points, vec_norm};
use qrscan::position::{approx_eq, QRCodeVersion};

#[test]
fn integer_square_roots_round_down() {
    assert_eq!(isqrt(0), 0);
    assert_eq!(isqrt(1), 1);
    assert_eq!(isqrt(2), 1);
    assert_eq!(isqrt(3), 1);
    assert_eq!(isqrt(4), 2);
    assert_eq!(isqrt(15), 3);
    assert_eq!(isqrt(16), 4);
    assert_eq!(isqrt(1 << 40), 1 << 20);
    assert_eq!(isqrt(u64::MAX), 4294967295);
}

#[test]
fn distances_are_euclidean() {
    // a 3-4-5 triangle in whole pixels
    assert_eq!(euclidean_distance((0, 0), (3 * 256, 4 * 256)), 5 * 256);
    assert_eq!(euclidean_distance((256, 256), (256, 256)), 0);
    // the diagonal of a 42-pixel square, rounded down
    assert_eq!(euclidean_distance((0, 0), (42 * 256, 42 * 256)), 15205);
}

#[test]
fn normalisation_scales_to_one_pixel() {
    assert_eq!(vec_norm((1000, 0)), (256, 0));
    assert_eq!(vec_norm((0, -1000)), (0, -256));
    // a diagonal vector: both components near 256 / sqrt(2)
    let n = vec_norm((5000, 5000));
    assert_eq!(n.0, n.1);
    assert!(n.0 >= 180 && n.0 <= 182);
}

#[test]
fn vector_arithmetic_is_componentwise() {
    assert_eq!(vec_between_points((10, 20), (30, 5)), (20, -15));
    assert_eq!(vec_add((10, 20), (30, 5)), (40, 25));
}

#[test]
fn angle_comparison_orders_by_planar_angle() {
    // positive x axis (angle 0) is above a downward-pointing vector and
    // below an upward-pointing one (y grows downward: angles in (-pi, pi])
    assert_eq!(angle((100, 0), (0, 100)), -1);
    assert_eq!(angle((0, 100), (100, 0)), 1);
    assert_eq!(angle((0, -100), (100, 0)), -1);
    assert_eq!(angle((100, 0), (200, 0)), 0);
    assert_eq!(angle((-100, 0), (100, 0)), 1);
    // within the same half-plane the cross product decides
    assert_eq!(angle((100, 10), (10, 100)), -1);
    assert_eq!(angle((10, 100), (100, 10)), 1);
    assert_eq!(angle((10, 10), (20, 20)), 0);
}

#[test]
fn approximate_equality_uses_a_tenth_of_a_pixel() {
    assert!(approx_eq(256, 256));
    assert!(approx_eq(256, 281)); // 25/256 is under 0.1
    assert!(!approx_eq(256, 282)); // 26/256 is over 0.1
    assert!(approx_eq(281, 256));
}

#[test]
fn version_round_trips_through_its_module_count() {
    for v in 1u32..=40 {
        let version = QRCodeVersion::new(v);
        let modules = version.number_of_modules();
        assert_eq!(modules, 4 * v + 17);
        let back = QRCodeVersion::from_estimated_number_of_modules(256 * modules as i64);
        assert_eq!(back.0, v);
    }
}

#[test]
fn version_estimation_rounds_to_the_nearest_grid() {
    // 22.4 modules rounds down to version 1's 21, 23.8 rounds up to 25
    assert_eq!(QRCodeVersion::from_estimated_number_of_modules((224 * 256) / 10).0, 1);
    assert_eq!(QRCodeVersion::from_estimated_number_of_modules((238 * 256) / 10).0, 2);
    // tiny estimates clamp at version zero
    assert_eq!(QRCodeVersion::from_estimated_number_of_modules(0).0, 0);
    assert_eq!(QRCodeVersion::from_estimated_number_of_modules(4 * 256).0, 0);
}
