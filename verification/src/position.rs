//! Grouping markers into QR corner triples and refining a triple into the
//! four corner positions and the version of a symbol.

use vstd::math::abs;
use vstd::prelude::*;

use crate::math::{
    angle, euclidean_distance, is_sqrt_floor, lemma_sqrt_floor_unique, spec_angle_cmp,
    spec_euclidean_distance, spec_vec_norm, tdiv, vec_add, vec_between_points, vec_norm,
    vec_scalar_mul,
};
use crate::position_markers::PositionMarker;

verus! {

/// Three markers taken as the corners of one QR symbol, tagged by the corner
/// they sit on, plus the mean of their estimated outer widths.
#[derive(Clone, Copy, Debug)]
pub struct PositionMarkerTriple {
    pub top_left: (i64, i64),
    pub top_right: (i64, i64),
    pub bottom_left: (i64, i64),
    pub mean_size: i64,
}

impl PositionMarkerTriple {
    /// The corners are bounded image coordinates, the tagged corners are
    /// genuinely distinct points, and the mean size is a bounded width;
    /// every accepted triple satisfies this.
    pub open spec fn wf(&self) -> bool {
        &&& 0 <= self.top_left.0 <= 4194304 && 0 <= self.top_left.1 <= 4194304
        &&& 0 <= self.top_right.0 <= 4194304 && 0 <= self.top_right.1 <= 4194304
        &&& 0 <= self.bottom_left.0 <= 4194304 && 0 <= self.bottom_left.1 <= 4194304
        &&& self.top_left != self.top_right
        &&& self.top_left != self.bottom_left
        &&& 0 <= self.mean_size <= 12582912
    }
}

/// Two fixed-point quantities agree within the dimension threshold 0.1.
pub open spec fn spec_approx_eq(x: int, y: int) -> bool {
    10 * abs(x - y) < 256
}

/// Decides whether two fixed-point quantities agree within 0.1.
pub fn approx_eq(x: i64, y: i64) -> (r: bool)
    requires
        -0x1000000000000 <= x <= 0x1000000000000,
        -0x1000000000000 <= y <= 0x1000000000000,
    ensures
        r == spec_approx_eq(x as int, y as int),
{
    let d: i64 = if x >= y {
        x - y
    } else {
        y - x
    };
    10 * d < 256
}

/// Distance between the centers of markers `i` and `j`.
pub open spec fn spec_marker_distance(markers: Seq<PositionMarker>, i: int, j: int) -> int {
    spec_euclidean_distance(markers[i].center, markers[j].center)
}

/// The three marker sizes are mutually consistent: each size is less than
/// 20% above their mean, stated over the integers as `5*s < 2*(s1+s2+s3)`.
pub open spec fn spec_sizes_match(s1: int, s2: int, s3: int) -> bool {
    let t = s1 + s2 + s3;
    &&& 5 * s1 < 2 * t
    &&& 5 * s2 < 2 * t
    &&& 5 * s3 < 2 * t
}

/// The ordered triple `(i1, i2, i3)` of distinct markers forms a QR corner
/// triangle: the pairwise distances, normalised so that the expected pattern
/// sums to `2 + sqrt(2)`, are within 0.1 of `1, 1, sqrt(2)`; the marker
/// sizes are mutually consistent; and the bottom-left marker lies clockwise
/// from the top-right marker around the top-left one (y grows downward), so
/// the angle from `i1 -> i2` to `i1 -> i3` is negative.
pub open spec fn spec_triple_accepted(
    markers: Seq<PositionMarker>,
    i1: int,
    i2: int,
    i3: int,
) -> bool {
    let d12 = spec_marker_distance(markers, i1, i2);
    let d13 = spec_marker_distance(markers, i1, i3);
    let d23 = spec_marker_distance(markers, i2, i3);
    let total = d12 + d13 + d23;
    let c1 = markers[i1].center;
    let c2 = markers[i2].center;
    let c3 = markers[i3].center;
    &&& i1 != i2 && i1 != i3 && i2 != i3
    &&& total > 0
    &&& spec_approx_eq(874 * d12 / total, 256)
    &&& spec_approx_eq(874 * d13 / total, 256)
    &&& spec_approx_eq(874 * d23 / total, 362)
    &&& spec_sizes_match(
        markers[i1].size as int,
        markers[i2].size as int,
        markers[i3].size as int,
    )
    &&& spec_angle_cmp(
        ((c2.0 - c1.0) as i64, (c2.1 - c1.1) as i64),
        ((c3.0 - c1.0) as i64, (c3.1 - c1.1) as i64),
    ) == -1
}

/// The triple emitted for accepted indices `(i1, i2, i3)`.
pub open spec fn spec_triple_of(
    markers: Seq<PositionMarker>,
    i1: int,
    i2: int,
    i3: int,
) -> PositionMarkerTriple {
    PositionMarkerTriple {
        top_left: markers[i1].center,
        top_right: markers[i2].center,
        bottom_left: markers[i3].center,
        mean_size: ((markers[i1].size + markers[i2].size + markers[i3].size) / 3) as i64,
    }
}

/// The triples emitted for all ordered index triples from `(i1, i2, i3)`
/// onward, in lexicographic order.
pub open spec fn spec_triples_from(
    markers: Seq<PositionMarker>,
    i1: int,
    i2: int,
    i3: int,
) -> Seq<PositionMarkerTriple>
    decreases markers.len() - i1, markers.len() - i2, markers.len() - i3,
        when 0 <= i1 && 0 <= i2 && 0 <= i3
{
    if i1 >= markers.len() {
        Seq::empty()
    } else if i2 >= markers.len() {
        spec_triples_from(markers, i1 + 1, 0, 0)
    } else if i3 >= markers.len() {
        spec_triples_from(markers, i1, i2 + 1, 0)
    } else {
        (if spec_triple_accepted(markers, i1, i2, i3) {
            seq![spec_triple_of(markers, i1, i2, i3)]
        } else {
            Seq::empty()
        }) + spec_triples_from(markers, i1, i2, i3 + 1)
    }
}

/// All accepted marker triples, in lexicographic index order.
pub open spec fn spec_find_triples(markers: Seq<PositionMarker>) -> Seq<PositionMarkerTriple> {
    spec_triples_from(markers, 0, 0, 0)
}

/// An accepted triple has pairwise distinct corner points and bounded
/// fields, so it is well-formed.
proof fn lemma_accepted_triple_wf(markers: Seq<PositionMarker>, i1: int, i2: int, i3: int)
    requires
        0 <= i1 < markers.len(),
        0 <= i2 < markers.len(),
        0 <= i3 < markers.len(),
        forall|i: int| 0 <= i < markers.len() ==> (#[trigger] markers[i]).in_range(),
        spec_triple_accepted(markers, i1, i2, i3),
    ensures
        spec_triple_of(markers, i1, i2, i3).wf(),
{
    let c1 = markers[i1].center;
    let c2 = markers[i2].center;
    let c3 = markers[i3].center;
    let d12 = spec_marker_distance(markers, i1, i2);
    let d13 = spec_marker_distance(markers, i1, i3);
    let total = d12 + d13 + spec_marker_distance(markers, i2, i3);
    assert(markers[i1].in_range() && markers[i2].in_range() && markers[i3].in_range());
    if c1 == c2 {
        assert(is_sqrt_floor(0, 0));
        lemma_sqrt_floor_unique(0, 0);
        assert(d12 == 0);
        vstd::arithmetic::div_mod::lemma_div_of0(total);
        assert(874 * d12 / total == 0);
        assert(!spec_approx_eq(0, 256));
    }
    if c1 == c3 {
        assert(is_sqrt_floor(0, 0));
        lemma_sqrt_floor_unique(0, 0);
        assert(d13 == 0);
        vstd::arithmetic::div_mod::lemma_div_of0(total);
        assert(874 * d13 / total == 0);
        assert(!spec_approx_eq(0, 256));
    }
    let sizes = markers[i1].size + markers[i2].size + markers[i3].size;
    vstd::arithmetic::div_mod::lemma_div_pos_is_pos(sizes, 3);
    vstd::arithmetic::div_mod::lemma_div_is_ordered(sizes, 37748736, 3);
}

/// Enumerates every ordered triple of distinct markers and keeps those that
/// form a valid QR corner triangle, labelling the three markers top-left,
/// top-right and bottom-left.
#[verifier::loop_isolation(false)]
#[verifier::rlimit(60)]
pub fn find_position_marker_triples(markers: &Vec<PositionMarker>) -> (triples: Vec<
    PositionMarkerTriple,
>)
    requires
        forall|i: int| 0 <= i < markers.len() ==> (#[trigger] markers@[i]).in_range(),
    ensures
        triples@ == spec_find_triples(markers@),
        forall|i: int| 0 <= i < triples.len() ==> (#[trigger] triples@[i]).wf(),
{
    let number_of_markers = markers.len();
    let mut triples: Vec<PositionMarkerTriple> = Vec::new();
    let mut index1: usize = 0;
    while index1 < number_of_markers
        invariant
            index1 <= number_of_markers,
            triples@ + spec_triples_from(markers@, index1 as int, 0, 0) == spec_find_triples(
                markers@,
            ),
            forall|i: int| 0 <= i < triples.len() ==> (#[trigger] triples@[i]).wf(),
        decreases number_of_markers - index1,
    {
        let mut index2: usize = 0;
        while index2 < number_of_markers
            invariant
                index1 < number_of_markers,
                index2 <= number_of_markers,
                triples@ + spec_triples_from(markers@, index1 as int, index2 as int, 0)
                    == spec_find_triples(markers@),
                forall|i: int| 0 <= i < triples.len() ==> (#[trigger] triples@[i]).wf(),
            decreases number_of_markers - index2,
        {
            let mut index3: usize = 0;
            while index3 < number_of_markers
                invariant
                    index1 < number_of_markers,
                    index2 < number_of_markers,
                    index3 <= number_of_markers,
                    triples@ + spec_triples_from(
                        markers@,
                        index1 as int,
                        index2 as int,
                        index3 as int,
                    ) == spec_find_triples(markers@),
                    forall|i: int| 0 <= i < triples.len() ==> (#[trigger] triples@[i]).wf(),
                decreases number_of_markers - index3,
            {
                let ghost before = triples@;
                if index1 != index2 && index1 != index3 && index2 != index3 {
                    let m1 = markers[index1];
                    let m2 = markers[index2];
                    let m3 = markers[index3];
                    let distance_1_to_2 = euclidean_distance(m1.center, m2.center);
                    let distance_1_to_3 = euclidean_distance(m1.center, m3.center);
                    let distance_2_to_3 = euclidean_distance(m2.center, m3.center);
                    let total_distance = distance_1_to_2 + distance_1_to_3 + distance_2_to_3;
                    if total_distance > 0 {
                        let normalized_distance_1_to_2 = 874 * distance_1_to_2 / total_distance;
                        let normalized_distance_1_to_3 = 874 * distance_1_to_3 / total_distance;
                        let normalized_distance_2_to_3 = 874 * distance_2_to_3 / total_distance;
                        if approx_eq(normalized_distance_1_to_2, 256) && approx_eq(
                            normalized_distance_1_to_3,
                            256,
                        ) && approx_eq(normalized_distance_2_to_3, 362) {
                            let size_total = m1.size + m2.size + m3.size;
                            let marker_sizes_match = 5 * m1.size < 2 * size_total && 5 * m2.size
                                < 2 * size_total && 5 * m3.size < 2 * size_total;
                            let angle1 = angle(
                                vec_between_points(m1.center, m2.center),
                                vec_between_points(m1.center, m3.center),
                            );
                            if angle1 < 0 && marker_sizes_match {
                                proof {
                                    lemma_accepted_triple_wf(
                                        markers@,
                                        index1 as int,
                                        index2 as int,
                                        index3 as int,
                                    );
                                }
                                triples.push(
                                    PositionMarkerTriple {
                                        top_left: m1.center,
                                        top_right: m2.center,
                                        bottom_left: m3.center,
                                        mean_size: size_total / 3,
                                    },
                                );
                                proof {
                                    assert(spec_triple_accepted(
                                        markers@,
                                        index1 as int,
                                        index2 as int,
                                        index3 as int,
                                    ));
                                    assert(triples@ =~= before + seq![
                                        spec_triple_of(
                                            markers@,
                                            index1 as int,
                                            index2 as int,
                                            index3 as int,
                                        ),
                                    ]);
                                    assert(before + spec_triples_from(
                                        markers@,
                                        index1 as int,
                                        index2 as int,
                                        index3 as int,
                                    ) =~= triples@ + spec_triples_from(
                                        markers@,
                                        index1 as int,
                                        index2 as int,
                                        index3 as int + 1,
                                    ));
                                }
                            }
                        }
                    }
                }
                proof {
                    if triples@ == before {
                        assert(!spec_triple_accepted(
                            markers@,
                            index1 as int,
                            index2 as int,
                            index3 as int,
                        ));
                        assert(spec_triples_from(
                            markers@,
                            index1 as int,
                            index2 as int,
                            index3 as int,
                        ) =~= spec_triples_from(
                            markers@,
                            index1 as int,
                            index2 as int,
                            index3 as int + 1,
                        ));
                    }
                }
                index3 += 1;
            }
            index2 += 1;
        }
        index1 += 1;
    }
    triples
}

/// A QR symbol version; version `v` has `4*v + 17` modules per side. Valid
/// QR versions are 1 through 40; estimates outside that range are not
/// rejected here and must be validated by consumers.
#[derive(Clone, Copy, Debug, PartialEq, Eq, Structural)]
pub struct QRCodeVersion(pub u32);

/// The version estimated from a fixed-point module count: the nearest
/// integer solution of `modules = 4*v + 17`, rounded half up and clamped at
/// zero.
pub open spec fn spec_version_from_scaled_estimate(estimate: int) -> int {
    let t = estimate - 4352;
    if t >= 0 {
        (t + 512) / 1024
    } else {
        0
    }
}

impl QRCodeVersion {
    /// The version number.
    pub open spec fn spec_value(&self) -> int {
        self.0 as int
    }

    /// Wraps a version number.
    pub fn new(version: u32) -> (r: QRCodeVersion)
        ensures
            r.spec_value() == version,
    {
        QRCodeVersion(version)
    }

    /// Estimates the version from a module count in fixed-point units
    /// (`SCALE` per module): the nearest version whose grid has that many
    /// modules, clamped at zero.
    pub fn from_estimated_number_of_modules(number_of_modules: i64) -> (r: QRCodeVersion)
        requires
            number_of_modules <= 0x4000000000,
        ensures
            r.spec_value() == spec_version_from_scaled_estimate(number_of_modules as int),
            r.spec_value() <= 0x10000000,
    {
        if number_of_modules >= 4352 {
            let t = number_of_modules - 4352;
            proof {
                vstd::arithmetic::div_mod::lemma_div_pos_is_pos(t + 512, 1024);
                vstd::arithmetic::div_mod::lemma_div_is_ordered(t + 512, 0x4000000000, 1024);
            }
            QRCodeVersion(((t + 512) / 1024) as u32)
        } else {
            QRCodeVersion(0)
        }
    }

    /// The number of modules per side of this version's grid.
    pub fn number_of_modules(&self) -> (r: u32)
        requires
            self.spec_value() <= 0x10000000,
        ensures
            r == 4 * self.spec_value() + 17,
    {
        4 * self.0 + 17
    }
}

/// Estimating the version back from the exact module count of a valid
/// version's grid returns that version: the rounding in
/// `spec_version_from_scaled_estimate` is the inverse of `4*v + 17` on every
/// version from 1 through 40 (and on any non-negative version).
pub proof fn lemma_version_round_trip(v: int)
    requires
        1 <= v <= 40,
    ensures
        spec_version_from_scaled_estimate(256 * (4 * v + 17)) == v,
{
    let t = 256 * (4 * v + 17) - 4352;
    assert(t == 1024 * v);
    vstd::arithmetic::div_mod::lemma_fundamental_div_mod_converse(1024 * v + 512, 1024, v, 512);
}

/// The four estimated corners of a QR symbol and its estimated version.
#[derive(Clone, Copy, Debug)]
pub struct QRCodePositionEstimation {
    pub top_left: (i64, i64),
    pub top_right: (i64, i64),
    pub bottom_left: (i64, i64),
    pub bottom_right: (i64, i64),
    pub version: QRCodeVersion,
}

impl QRCodePositionEstimation {
    /// The corners are bounded coordinates and the version is bounded; every
    /// estimation produced from a well-formed triple satisfies this.
    pub open spec fn wf(&self) -> bool {
        &&& -1073741824 <= self.top_left.0 <= 1073741824
        &&& -1073741824 <= self.top_left.1 <= 1073741824
        &&& -1073741824 <= self.top_right.0 <= 1073741824
        &&& -1073741824 <= self.top_right.1 <= 1073741824
        &&& -1073741824 <= self.bottom_left.0 <= 1073741824
        &&& -1073741824 <= self.bottom_left.1 <= 1073741824
        &&& -1073741824 <= self.bottom_right.0 <= 1073741824
        &&& -1073741824 <= self.bottom_right.1 <= 1073741824
        &&& self.version.spec_value() <= 0x10000000
    }
}

/// Offsets a corner point by `scalar/SCALE` units of the direction vector
/// `dir`, mirroring `vec_add(p, vec_scalar_mul(dir, scalar))`.
pub open spec fn spec_offset(p: (i64, i64), dir: (int, int), scalar: int) -> (int, int) {
    (p.0 + tdiv(dir.0 * scalar, 256), p.1 + tdiv(dir.1 * scalar, 256))
}

/// The estimated symbol position of one triple. With `u` and `v` the unit
/// vectors along the top and left edges and `half` half the marker size, the
/// three observed corners move outward by `half` along both axes; the grid
/// side comes from the mean outer edge length against the module size
/// estimate; and the unobserved fourth corner is the midpoint of the two
/// parallelogram completions.
pub open spec fn spec_estimate_position(triple: PositionMarkerTriple) -> QRCodePositionEstimation {
    let estimated_module_size = if triple.mean_size / 7 >= 1 {
        triple.mean_size / 7
    } else {
        1
    };
    let half = triple.mean_size / 2;
    let u = spec_vec_norm(
        ((triple.top_right.0 - triple.top_left.0) as i64,
        (triple.top_right.1 - triple.top_left.1) as i64),
    );
    let v = spec_vec_norm(
        ((triple.bottom_left.0 - triple.top_left.0) as i64,
        (triple.bottom_left.1 - triple.top_left.1) as i64),
    );
    let top_left = spec_offset(
        ((triple.top_left.0 + tdiv(u.0 * (-half), 256)) as i64,
        (triple.top_left.1 + tdiv(u.1 * (-half), 256)) as i64),
        v,
        -half,
    );
    let top_right = spec_offset(
        ((triple.top_right.0 + tdiv(u.0 * half, 256)) as i64,
        (triple.top_right.1 + tdiv(u.1 * half, 256)) as i64),
        v,
        -half,
    );
    let bottom_left = spec_offset(
        ((triple.bottom_left.0 + tdiv(u.0 * (-half), 256)) as i64,
        (triple.bottom_left.1 + tdiv(u.1 * (-half), 256)) as i64),
        v,
        half,
    );
    let tl = (top_left.0 as i64, top_left.1 as i64);
    let tr = (top_right.0 as i64, top_right.1 as i64);
    let bl = (bottom_left.0 as i64, bottom_left.1 as i64);
    let mean_edge_length = (spec_euclidean_distance(tl, tr) + spec_euclidean_distance(tl, bl))
        / 2;
    let version = spec_version_from_scaled_estimate(
        256 * mean_edge_length / estimated_module_size,
    );
    let number_of_modules = 4 * version + 17;
    let module_size = mean_edge_length / number_of_modules;
    let offset = number_of_modules * module_size;
    let bottom_right_1 = spec_offset(tr, v, offset);
    let bottom_right_2 = spec_offset(bl, u, offset);
    QRCodePositionEstimation {
        top_left: (tl.0, tl.1),
        top_right: (tr.0, tr.1),
        bottom_left: (bl.0, bl.1),
        bottom_right: (tdiv(bottom_right_1.0 + bottom_right_2.0, 2) as i64,
        tdiv(bottom_right_1.1 + bottom_right_2.1, 2) as i64),
        version: QRCodeVersion((version as u32)),
    }
}

/// Refines one accepted triple into the four corner positions and the
/// estimated version of the symbol.
#[verifier::loop_isolation(false)]
#[verifier::rlimit(100)]
pub fn estimate_position(triple: &PositionMarkerTriple) -> (estimation: QRCodePositionEstimation)
    requires
        triple.wf(),
    ensures
        estimation == spec_estimate_position(*triple),
        estimation.wf(),
{
    let estimated_module_size_raw = triple.mean_size / 7;
    // a degenerate mean size below one fixed-point unit per module would
    // leave nothing to divide by; such positions yield out-of-range versions
    // that consumers discard
    let estimated_module_size: i64 = if estimated_module_size_raw >= 1 {
        estimated_module_size_raw
    } else {
        1
    };
    let half = triple.mean_size / 2;
    let top_left_to_top_right_direction = vec_norm(
        vec_between_points(triple.top_left, triple.top_right),
    );
    let top_left_to_bottom_left_direction = vec_norm(
        vec_between_points(triple.top_left, triple.bottom_left),
    );
    proof {
        lemma_scale_div_bound(top_left_to_top_right_direction.0 as int, -(half as int), 6291456);
        lemma_scale_div_bound(top_left_to_top_right_direction.1 as int, -(half as int), 6291456);
        lemma_scale_div_bound(top_left_to_top_right_direction.0 as int, half as int, 6291456);
        lemma_scale_div_bound(top_left_to_top_right_direction.1 as int, half as int, 6291456);
        lemma_scale_div_bound(top_left_to_bottom_left_direction.0 as int, -(half as int), 6291456);
        lemma_scale_div_bound(top_left_to_bottom_left_direction.1 as int, -(half as int), 6291456);
        lemma_scale_div_bound(top_left_to_bottom_left_direction.0 as int, half as int, 6291456);
        lemma_scale_div_bound(top_left_to_bottom_left_direction.1 as int, half as int, 6291456);
    }
    let top_left = vec_add(
        vec_add(
            triple.top_left,
            vec_scalar_mul(top_left_to_top_right_direction, -half),
        ),
        vec_scalar_mul(top_left_to_bottom_left_direction, -half),
    );
    let top_right = vec_add(
        vec_add(triple.top_right, vec_scalar_mul(top_left_to_top_right_direction, half)),
        vec_scalar_mul(top_left_to_bottom_left_direction, -half),
    );
    let bottom_left = vec_add(
        vec_add(
            triple.bottom_left,
            vec_scalar_mul(top_left_to_top_right_direction, -half),
        ),
        vec_scalar_mul(top_left_to_bottom_left_direction, half),
    );
    let mean_edge_length = (euclidean_distance(top_left, top_right) + euclidean_distance(
        top_left,
        bottom_left,
    )) / 2;
    proof {
        vstd::arithmetic::div_mod::lemma_div_is_ordered_by_denominator(
            256 * mean_edge_length as int,
            1,
            estimated_module_size as int,
        );
        vstd::arithmetic::div_mod::lemma_div_basics(256 * mean_edge_length as int);
        vstd::arithmetic::div_mod::lemma_div_pos_is_pos(
            256 * mean_edge_length as int,
            estimated_module_size as int,
        );
    }
    let version = QRCodeVersion::from_estimated_number_of_modules(
        256 * mean_edge_length / estimated_module_size,
    );
    let number_of_modules = version.number_of_modules() as i64;
    let module_size = mean_edge_length / number_of_modules;
    proof {
        vstd::arithmetic::div_mod::lemma_div_pos_is_pos(mean_edge_length as int, 256);
        vstd::arithmetic::div_mod::lemma_div_pos_is_pos(
            mean_edge_length as int,
            number_of_modules as int,
        );
        vstd::arithmetic::div_mod::lemma_remainder_lower(
            mean_edge_length as int,
            number_of_modules as int,
        );
        lemma_mul_div_le(mean_edge_length as int, number_of_modules as int);
    }
    let offset = number_of_modules * module_size;
    proof {
        lemma_scale_div_bound(
            top_left_to_bottom_left_direction.0 as int,
            offset as int,
            759250126,
        );
        lemma_scale_div_bound(
            top_left_to_bottom_left_direction.1 as int,
            offset as int,
            759250126,
        );
        lemma_scale_div_bound(top_left_to_top_right_direction.0 as int, offset as int, 759250126);
        lemma_scale_div_bound(top_left_to_top_right_direction.1 as int, offset as int, 759250126);
    }
    let bottom_right_1 = vec_add(
        top_right,
        vec_scalar_mul(top_left_to_bottom_left_direction, offset),
    );
    let bottom_right_2 = vec_add(
        bottom_left,
        vec_scalar_mul(top_left_to_top_right_direction, offset),
    );
    let bottom_right = ((bottom_right_1.0 + bottom_right_2.0) / 2, (bottom_right_1.1
        + bottom_right_2.1) / 2);
    QRCodePositionEstimation { top_left, top_right, bottom_left, bottom_right, version }
}

/// A fixed-point scaling `x * s / 256` of a unit-vector component `x` stays
/// within the scalar's own bound.
proof fn lemma_scale_div_bound(x: int, s: int, m: int)
    requires
        -256 <= x <= 256,
        -m <= s <= m,
        0 <= m,
    ensures
        -m <= tdiv(x * s, 256) <= m,
{
    assert(-(256 * m) <= x * s <= 256 * m) by (nonlinear_arith)
        requires
            -256 <= x <= 256,
            -m <= s <= m,
            0 <= m,
    ;
    let p = x * s;
    vstd::arithmetic::div_mod::lemma_div_multiples_vanish(m, 256);
    if p >= 0 {
        vstd::arithmetic::div_mod::lemma_div_pos_is_pos(p, 256);
        vstd::arithmetic::div_mod::lemma_div_is_ordered(p, 256 * m, 256);
    } else {
        vstd::arithmetic::div_mod::lemma_div_pos_is_pos(-p, 256);
        vstd::arithmetic::div_mod::lemma_div_is_ordered(-p, 256 * m, 256);
    }
}

/// Multiplying a floor quotient back by the divisor does not exceed the
/// dividend.
proof fn lemma_mul_div_le(a: int, b: int)
    requires
        a >= 0,
        b > 0,
    ensures
        b * (a / b) <= a,
        b * (a / b) >= 0,
{
    vstd::arithmetic::div_mod::lemma_fundamental_div_mod(a, b);
    vstd::arithmetic::div_mod::lemma_div_pos_is_pos(a, b);
    assert(b * (a / b) >= 0) by (nonlinear_arith)
        requires
            b > 0,
            a / b >= 0,
    ;
}

/// Refines every accepted triple of the markers into a position estimation.
#[verifier::loop_isolation(false)]
pub fn find_estimated_qr_code_positions(markers: &Vec<PositionMarker>) -> (positions: Vec<
    QRCodePositionEstimation,
>)
    requires
        forall|i: int| 0 <= i < markers.len() ==> (#[trigger] markers@[i]).in_range(),
    ensures
        positions@ == spec_find_triples(markers@).map_values(
            |t: PositionMarkerTriple| spec_estimate_position(t),
        ),
        forall|i: int| 0 <= i < positions.len() ==> (#[trigger] positions@[i]).wf(),
{
    let position_marker_triples = find_position_marker_triples(markers);
    let ghost mapped = spec_find_triples(markers@).map_values(
        |t: PositionMarkerTriple| spec_estimate_position(t),
    );
    let mut positions: Vec<QRCodePositionEstimation> = Vec::new();
    let mut i: usize = 0;
    while i < position_marker_triples.len()
        invariant
            i <= position_marker_triples.len(),
            positions@ == mapped.take(i as int),
            forall|k: int| 0 <= k < positions.len() ==> (#[trigger] positions@[k]).wf(),
        decreases position_marker_triples.len() - i,
    {
        let estimation = estimate_position(&position_marker_triples[i]);
        positions.push(estimation);
        proof {
            assert(positions@ =~= mapped.take(i + 1));
        }
        i += 1;
    }
    proof {
        assert(mapped.take(position_marker_triples@.len() as int) =~= mapped);
    }
    positions
}

} // verus!
