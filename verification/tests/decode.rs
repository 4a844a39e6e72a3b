use qrscan::decode::{
    decode_format_information, format_mask, ErrorCorrectionLevel, FormatInformation, Mask,
};
use qrscan::modules::QRCodeModules;
use qrscan::position::QRCodeVersion;

fn empty_modules(version: u32) -> QRCodeModules {
    let n = (4 * version + 17) as usize;
    let mut bits: Vec<Vec<bool>> = Vec::new();
    for _ in 0..n {
        bits.push(vec![false; n]);
    }
    QRCodeModules { version: QRCodeVersion::new(version), bits }
}

/// Sets format bit `k` (1-based) of a version-1 matrix.
fn set_format_bit(modules: &mut QRCodeModules, k: usize, value: bool) {
    let n = modules.bits.len();
    let (x, y) = if k <= 8 {
        (n - 1 - k, 8)
    } else {
        (8, n - 16 + k)
    };
    modules.bits[x][y] = value;
}

#[test]
fn format_mask_has_fifteen_bits() {
    let mask = format_mask();
    assert_eq!(mask.len(), 15);
    let expected = [
        true, false, true, false, true, false, false, false, false, false, true, false, false,
        true, false,
    ];
    for k in 0..15 {
        assert_eq!(mask[k], expected[k]);
    }
}

#[test]
fn format_bits_equal_to_mask_decode_to_m_and_m000() {
    // raw format bits equal to the fixed mask: the XOR clears every bit,
    // 00 is level M and 000 is mask M000
    let mut modules = empty_modules(1);
    let mask = format_mask();
    for k in 1..=15 {
        set_format_bit(&mut modules, k, mask[k - 1]);
    }
    let format = decode_format_information(&modules);
    assert_eq!(format.error_correction_level, ErrorCorrectionLevel::M);
    assert_eq!(format.mask, Mask::M000);
}

#[test]
fn all_light_format_bits_decode_to_the_mask_pattern() {
    // raw bits all light: the decoded sequence is the fixed mask itself,
    // whose leading bits are 10 (level H) and 101 (mask M101)
    let modules = empty_modules(1);
    let format = decode_format_information(&modules);
    assert_eq!(format.error_correction_level, ErrorCorrectionLevel::H);
    assert_eq!(format.mask, Mask::M101);
}

#[test]
fn flipping_the_first_raw_bit_toggles_the_level() {
    // darkening the first read position, on row 8 beside the right edge,
    // toggles the first decoded bit: level H becomes M
    let mut modules = empty_modules(1);
    set_format_bit(&mut modules, 1, true);
    let format = decode_format_information(&modules);
    assert_eq!(format.error_correction_level, ErrorCorrectionLevel::M);
    assert_eq!(format.mask, Mask::M101);
}

#[test]
fn error_correction_levels_follow_the_table() {
    assert_eq!(ErrorCorrectionLevel::from_bits([false, true]), ErrorCorrectionLevel::L);
    assert_eq!(ErrorCorrectionLevel::from_bits([false, false]), ErrorCorrectionLevel::M);
    assert_eq!(ErrorCorrectionLevel::from_bits([true, true]), ErrorCorrectionLevel::Q);
    assert_eq!(ErrorCorrectionLevel::from_bits([true, false]), ErrorCorrectionLevel::H);
}

#[test]
fn masks_follow_binary_order() {
    assert_eq!(Mask::from_bits([false, false, false]), Mask::M000);
    assert_eq!(Mask::from_bits([false, false, true]), Mask::M001);
    assert_eq!(Mask::from_bits([false, true, false]), Mask::M010);
    assert_eq!(Mask::from_bits([false, true, true]), Mask::M011);
    assert_eq!(Mask::from_bits([true, false, false]), Mask::M100);
    assert_eq!(Mask::from_bits([true, false, true]), Mask::M101);
    assert_eq!(Mask::from_bits([true, true, false]), Mask::M110);
    assert_eq!(Mask::from_bits([true, true, true]), Mask::M111);
}

#[test]
fn format_information_compares_by_fields() {
    let a = FormatInformation {
        error_correction_level: ErrorCorrectionLevel::L,
        mask: Mask::M011,
    };
    let b = FormatInformation {
        error_correction_level: ErrorCorrectionLevel::L,
        mask: Mask::M011,
    };
    assert_eq!(a, b);
}
