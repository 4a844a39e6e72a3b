//! Locates QR code symbols in a binarized raster image, reconstructs their
//! module grids, and decodes the error-correction level and data-mask fields
//! from the format information region.
//!
//! Pixel coordinates that are finer than one pixel are carried as integers
//! scaled by `SCALE` (so a value of `SCALE` means one pixel). All geometry is
//! computed in this fixed-point form, which keeps every step verifiable.

pub mod cluster;
pub mod decode;
pub mod math;
pub mod modules;
pub mod position;
pub mod position_markers;
pub mod raster;
pub mod threshold;

use vstd::prelude::*;

use crate::cluster::{dbscan_post, Classification};
use crate::decode::{
    decode_format_information, spec_decoded_format_bits, spec_error_correction_level, spec_mask,
    FormatInformation,
};
use crate::modules::{read_modules, spec_module_bit, QRCodeModules};
use crate::position::{find_estimated_qr_code_positions, spec_estimate_position,
    spec_find_triples, PositionMarkerTriple, QRCodePositionEstimation};
use crate::position_markers::{detect_position_marker_hints, cluster_position_marker_hints,
    lemma_all_white_image_no_hints, spec_all_white, spec_detect_hints, spec_hint_points,
    spec_markers_upto, PositionMarker, PositionMarkerHint, CLUSTER_EPS, CLUSTER_MIN_POINTS};
use crate::raster::GrayImage;

verus! {

/// Number of fixed-point units per pixel. Sub-pixel coordinates, sizes and
/// distances are integers scaled by this factor.
pub const SCALE: i64 = 256;

/// The estimation carries a valid QR version, 1 through 40. Estimations
/// outside this range come from degenerate geometry and are discarded before
/// sampling.
pub open spec fn spec_version_valid(position: QRCodePositionEstimation) -> bool {
    1 <= position.version.spec_value() <= 40
}

/// The positions among the first `n` whose estimated version is valid, in
/// order.
pub open spec fn spec_valid_positions(
    positions: Seq<QRCodePositionEstimation>,
    n: int,
) -> Seq<QRCodePositionEstimation>
    decreases n,
{
    if n <= 0 {
        Seq::empty()
    } else {
        spec_valid_positions(positions, n - 1) + if spec_version_valid(positions[n - 1]) {
            seq![positions[n - 1]]
        } else {
            Seq::empty()
        }
    }
}

/// The symbols detected in a binarized image, each as its sampled module
/// matrix and decoded format information: scan hints are fused into markers
/// by one valid clustering, the markers are grouped into corner triples and
/// refined into positions, positions with an out-of-range version are
/// discarded, and each remaining symbol is sampled and format-decoded.
#[verifier::loop_isolation(false)]
pub fn detect_qr_codes(image: &GrayImage) -> (codes: Vec<(QRCodeModules, FormatInformation)>)
    requires
        image.wf(),
    ensures
        exists|cls: Seq<Classification>|
            #![trigger dbscan_post(spec_hint_points(spec_detect_hints(image)), CLUSTER_EPS as int, CLUSTER_MIN_POINTS as int, cls)]
            {
                let hints = spec_detect_hints(image);
                let markers = spec_markers_upto(hints, cls, hints.len() as int);
                let positions = spec_find_triples(markers).map_values(
                    |t: PositionMarkerTriple| spec_estimate_position(t),
                );
                let valid = spec_valid_positions(positions, positions.len() as int);
                &&& dbscan_post(
                    spec_hint_points(hints),
                    CLUSTER_EPS as int,
                    CLUSTER_MIN_POINTS as int,
                    cls,
                )
                &&& codes@.len() == valid.len()
                &&& forall|i: int|
                    0 <= i < codes@.len() ==> {
                        let code = (#[trigger] codes@[i]).0;
                        &&& code.wf()
                        &&& code.version == valid[i].version
                        &&& (forall|x: int, y: int|
                            #![trigger code.bits[x][y]]
                            0 <= x < code.bits.len() && 0 <= y < code.bits[x].len()
                                ==> code.bits[x][y] == spec_module_bit(image, &valid[i], x, y))
                        &&& codes@[i].1.error_correction_level == spec_error_correction_level(
                            spec_decoded_format_bits(&code)[0],
                            spec_decoded_format_bits(&code)[1],
                        )
                        &&& codes@[i].1.mask == spec_mask(
                            spec_decoded_format_bits(&code)[2],
                            spec_decoded_format_bits(&code)[3],
                            spec_decoded_format_bits(&code)[4],
                        )
                    }
            },
{
    if image.width == 0 || image.height == 0 {
        // a degenerate image has no scan lines: nothing can be detected
        proof {
            assert(spec_all_white(image));
            lemma_all_white_image_no_hints(image);
            let hints = spec_detect_hints(image);
            let cls = Seq::<Classification>::empty();
            assert(spec_hint_points(hints) =~= Seq::<(i64, i64)>::empty());
            assert(dbscan_post(
                spec_hint_points(hints),
                CLUSTER_EPS as int,
                CLUSTER_MIN_POINTS as int,
                cls,
            ));
            let markers = spec_markers_upto(hints, cls, hints.len() as int);
            assert(markers =~= Seq::<PositionMarker>::empty());
            assert(spec_find_triples(markers) =~= Seq::<PositionMarkerTriple>::empty());
            let positions = spec_find_triples(markers).map_values(
                |t: PositionMarkerTriple| spec_estimate_position(t),
            );
            assert(positions =~= Seq::<QRCodePositionEstimation>::empty());
            assert(spec_valid_positions(positions, positions.len() as int)
                =~= Seq::<QRCodePositionEstimation>::empty());
        }
        return Vec::new();
    }
    let hints = detect_position_marker_hints(image);
    let markers = cluster_position_marker_hints(&hints);
    let positions = find_estimated_qr_code_positions(&markers);
    let mut valid: Vec<QRCodePositionEstimation> = Vec::new();
    let mut i: usize = 0;
    while i < positions.len()
        invariant
            i <= positions.len(),
            valid@ == spec_valid_positions(positions@, i as int),
            forall|k: int| 0 <= k < valid@.len() ==> (#[trigger] valid@[k]).wf(),
            forall|k: int| 0 <= k < valid@.len() ==> spec_version_valid(#[trigger] valid@[k]),
        decreases positions.len() - i,
    {
        let position = &positions[i];
        if position.version.0 >= 1 && position.version.0 <= 40 {
            valid.push(*position);
            proof {
                assert(valid@ =~= spec_valid_positions(positions@, i as int) + seq![
                    positions@[i as int],
                ]);
            }
        }
        i += 1;
    }
    let mut codes: Vec<(QRCodeModules, FormatInformation)> = Vec::new();
    let mut j: usize = 0;
    while j < valid.len()
        invariant
            j <= valid.len(),
            codes@.len() == j,
            image.wf() && image.width >= 1 && image.height >= 1,
            forall|k: int| 0 <= k < valid@.len() ==> (#[trigger] valid@[k]).wf(),
            forall|k: int| 0 <= k < valid@.len() ==> spec_version_valid(#[trigger] valid@[k]),
            forall|k: int|
                0 <= k < j ==> {
                    let code = (#[trigger] codes@[k]).0;
                    &&& code.wf()
                    &&& code.version == valid@[k].version
                    &&& (forall|x: int, y: int|
                        #![trigger code.bits[x][y]]
                        0 <= x < code.bits.len() && 0 <= y < code.bits[x].len() ==> code.bits[x][y]
                            == spec_module_bit(image, &valid@[k], x, y))
                    &&& codes@[k].1.error_correction_level == spec_error_correction_level(
                        spec_decoded_format_bits(&code)[0],
                        spec_decoded_format_bits(&code)[1],
                    )
                    &&& codes@[k].1.mask == spec_mask(
                        spec_decoded_format_bits(&code)[2],
                        spec_decoded_format_bits(&code)[3],
                        spec_decoded_format_bits(&code)[4],
                    )
                },
        decreases valid.len() - j,
    {
        let code = read_modules(image, &valid[j]);
        let format_information = decode_format_information(&code);
        codes.push((code, format_information));
        j += 1;
    }
    codes
}

} // verus!
