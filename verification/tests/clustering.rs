use qrscan::cluster::{dbscan_cluster, Classification};
use qrscan::position_markers::{cluster_position_marker_hints, PositionMarkerHint};

/// A tight 3x3 block of points one pixel apart around `(cx, cy)`, in pixels.
fn block(cx: i64, cy: i64) -> Vec<(i64, i64)> {
    let mut points = Vec::new();
    for dy in -1..=1 {
        for dx in -1..=1 {
            points.push(((cx + dx) * 256, (cy + dy) * 256));
        }
    }
    points
}

#[test]
fn dense_block_is_one_cluster_and_far_point_is_noise() {
    let mut points = block(10, 10);
    points.push((40 * 256, 40 * 256));
    let classifications = dbscan_cluster(4 * 256, 9, &points);
    assert_eq!(classifications.len(), 10);
    for c in &classifications[..9] {
        assert!(matches!(c, Classification::Core(0)));
    }
    assert_eq!(classifications[9], Classification::Noise);
}

#[test]
fn two_separate_blocks_get_distinct_clusters() {
    let mut points = block(10, 10);
    points.extend(block(40, 40));
    let classifications = dbscan_cluster(4 * 256, 9, &points);
    for c in &classifications[..9] {
        assert!(matches!(c, Classification::Core(0)));
    }
    for c in &classifications[9..] {
        assert!(matches!(c, Classification::Core(1)));
    }
}

#[test]
fn sparse_points_are_noise() {
    let points = vec![(0, 0), (10 * 256, 0), (0, 10 * 256), (10 * 256, 10 * 256)];
    let classifications = dbscan_cluster(4 * 256, 9, &points);
    for c in &classifications {
        assert_eq!(*c, Classification::Noise);
    }
}

#[test]
fn edge_points_join_the_cluster_of_a_close_core_point() {
    // nine points within one pixel make every block member a core point; a
    // tenth point three pixels away sees too few neighbours but lies within
    // reach of the block
    let mut points = block(10, 10);
    points.push((14 * 256, 10 * 256));
    let classifications = dbscan_cluster(4 * 256, 9, &points);
    assert_eq!(classifications[9], Classification::Edge(0));
}

#[test]
fn classifications_match_the_dbscan_crate() {
    // the same points handed to the dbscan crate, with coordinates divided
    // back into pixels: classifications must agree point for point
    let mut points = block(10, 10);
    points.extend(block(40, 40));
    points.push((14 * 256, 10 * 256));
    points.push((100 * 256, 100 * 256));
    let mine = dbscan_cluster(4 * 256, 9, &points);
    let points_in_pixels: Vec<Vec<f64>> = points
        .iter()
        .map(|p| vec![p.0 as f64 / 256.0, p.1 as f64 / 256.0])
        .collect();
    let crate_classifications = dbscan::cluster(4.0, 9, &points_in_pixels);
    assert_eq!(mine.len(), crate_classifications.len());
    for (m, r) in mine.iter().zip(crate_classifications.iter()) {
        match (m, r) {
            (Classification::Core(a), dbscan::Classification::Core(b)) => assert_eq!(a, b),
            (Classification::Edge(a), dbscan::Classification::Edge(b)) => assert_eq!(a, b),
            (Classification::Noise, dbscan::Classification::Noise) => {}
            _ => panic!("classifications disagree"),
        }
    }
}

#[test]
fn markers_are_the_means_of_their_clusters() {
    // nine hints around (10, 10) with sizes 20..29 pixels; one far hint is
    // noise and contributes no marker
    let mut hints: Vec<PositionMarkerHint> = Vec::new();
    let mut size: i64 = 20 * 256;
    for dy in -1..=1i64 {
        for dx in -1..=1i64 {
            hints.push(PositionMarkerHint {
                center: ((10 + dx) * 256, (10 + dy) * 256),
                size,
            });
            size += 256;
        }
    }
    hints.push(PositionMarkerHint { center: (50 * 256, 50 * 256), size: 20 * 256 });
    let markers = cluster_position_marker_hints(&hints);
    assert_eq!(markers.len(), 1);
    assert_eq!(markers[0].center, (10 * 256, 10 * 256));
    // mean of 20..=28 pixels is 24 pixels
    assert_eq!(markers[0].size, 24 * 256);
}
