//! Extracting the 15 format-information bits from a module matrix and
//! decoding the error-correction level and data-mask fields. Only the copy
//! beside the top-left finder pattern is read; its trailing ten BCH check
//! bits are not decoded here.

use vstd::prelude::*;

use crate::modules::QRCodeModules;
use crate::position::QRCodeVersion;

verus! {

/// Walks the 15 format-bit positions beside the top-left finder pattern:
/// first the eight modules to its right, then the seven below it, in the
/// fixed reading order.
pub struct FormatInformationIteratorUpperRightLowerLeft {
    pub current_index: usize,
    pub number_of_modules: usize,
}

/// The module coordinates of format bit `k` (1-based, `k` in `1..=15`) in a
/// grid of `n` modules per side.
pub open spec fn spec_format_position(n: int, k: int) -> (int, int) {
    if k <= 8 {
        (n - 1 - k, 8)
    } else {
        (8, n - 16 + k)
    }
}

impl FormatInformationIteratorUpperRightLowerLeft {
    /// Starts the walk for a symbol of the given version.
    pub fn new(version: &QRCodeVersion) -> (r: Self)
        requires
            version.spec_value() <= 0x10000000,
        ensures
            r.current_index == 0,
            r.number_of_modules == 4 * version.spec_value() + 17,
    {
        FormatInformationIteratorUpperRightLowerLeft {
            current_index: 0,
            number_of_modules: version.number_of_modules() as usize,
        }
    }

    /// The next format-bit position, or nothing after all 15.
    pub fn next(&mut self) -> (r: Option<(usize, usize)>)
        requires
            old(self).number_of_modules >= 17,
            old(self).current_index <= 15,
        ensures
            final(self).number_of_modules == old(self).number_of_modules,
            old(self).current_index <= 14 ==> {
                &&& final(self).current_index == old(self).current_index + 1
                &&& match r {
                    Some(p) => (p.0 as int, p.1 as int) == spec_format_position(
                        old(self).number_of_modules as int,
                        old(self).current_index + 1,
                    ) && p.0 < old(self).number_of_modules && p.1 < old(self).number_of_modules,
                    None => false,
                }
            },
            old(self).current_index > 14 ==> r is None && *final(self) == *old(self),
    {
        if self.current_index <= 7 {
            self.current_index = self.current_index + 1;
            return Some((self.number_of_modules - 1 - self.current_index, 8));
        }
        if self.current_index <= 14 {
            self.current_index = self.current_index + 1;
            return Some((8, self.number_of_modules - 16 + self.current_index));
        }
        None
    }
}

/// The two-bit error-correction level of a symbol.
#[derive(Clone, Copy, Debug, PartialEq, Eq, Structural)]
pub enum ErrorCorrectionLevel {
    L,
    M,
    Q,
    H,
}

/// The error-correction level encoded by two format bits.
pub open spec fn spec_error_correction_level(b0: bool, b1: bool) -> ErrorCorrectionLevel {
    if !b0 && b1 {
        ErrorCorrectionLevel::L
    } else if !b0 && !b1 {
        ErrorCorrectionLevel::M
    } else if b0 && b1 {
        ErrorCorrectionLevel::Q
    } else {
        ErrorCorrectionLevel::H
    }
}

impl ErrorCorrectionLevel {
    /// Decodes the two-bit level field.
    pub fn from_bits(bits: [bool; 2]) -> (r: Self)
        ensures
            r == spec_error_correction_level(bits[0], bits[1]),
    {
        if !bits[0] && bits[1] {
            ErrorCorrectionLevel::L
        } else if !bits[0] && !bits[1] {
            ErrorCorrectionLevel::M
        } else if bits[0] && bits[1] {
            ErrorCorrectionLevel::Q
        } else {
            ErrorCorrectionLevel::H
        }
    }
}

/// The three-bit data-mask field of a symbol.
#[derive(Clone, Copy, Debug, PartialEq, Eq, Structural)]
pub enum Mask {
    M000,
    M001,
    M010,
    M011,
    M100,
    M101,
    M110,
    M111,
}

/// The data mask encoded by three format bits, in binary order.
pub open spec fn spec_mask(b0: bool, b1: bool, b2: bool) -> Mask {
    if !b0 && !b1 && !b2 {
        Mask::M000
    } else if !b0 && !b1 && b2 {
        Mask::M001
    } else if !b0 && b1 && !b2 {
        Mask::M010
    } else if !b0 && b1 && b2 {
        Mask::M011
    } else if b0 && !b1 && !b2 {
        Mask::M100
    } else if b0 && !b1 && b2 {
        Mask::M101
    } else if b0 && b1 && !b2 {
        Mask::M110
    } else {
        Mask::M111
    }
}

impl Mask {
    /// Decodes the three-bit mask field.
    pub fn from_bits(bits: [bool; 3]) -> (r: Self)
        ensures
            r == spec_mask(bits[0], bits[1], bits[2]),
    {
        if !bits[0] && !bits[1] && !bits[2] {
            Mask::M000
        } else if !bits[0] && !bits[1] && bits[2] {
            Mask::M001
        } else if !bits[0] && bits[1] && !bits[2] {
            Mask::M010
        } else if !bits[0] && bits[1] && bits[2] {
            Mask::M011
        } else if bits[0] && !bits[1] && !bits[2] {
            Mask::M100
        } else if bits[0] && !bits[1] && bits[2] {
            Mask::M101
        } else if bits[0] && bits[1] && !bits[2] {
            Mask::M110
        } else {
            Mask::M111
        }
    }
}

/// The decoded format fields of one symbol.
#[derive(Clone, Copy, Debug, PartialEq, Eq, Structural)]
pub struct FormatInformation {
    pub error_correction_level: ErrorCorrectionLevel,
    pub mask: Mask,
}

/// The fixed 15-bit mask that is XORed onto the raw format bits,
/// `101010000010010` most significant bit first.
pub open spec fn spec_format_mask() -> Seq<bool> {
    seq![
        true,
        false,
        true,
        false,
        true,
        false,
        false,
        false,
        false,
        false,
        true,
        false,
        false,
        true,
        false,
    ]
}

/// The fixed XOR mask has exactly 15 bits.
pub proof fn lemma_format_mask_length()
    ensures
        spec_format_mask().len() == 15,
{
}

/// The fixed XOR mask as a bit vector of exactly 15 bits.
pub fn format_mask() -> (r: Vec<bool>)
    ensures
        r@ == spec_format_mask(),
        r@.len() == 15,
{
    let mut r: Vec<bool> = Vec::new();
    r.push(true);
    r.push(false);
    r.push(true);
    r.push(false);
    r.push(true);
    r.push(false);
    r.push(false);
    r.push(false);
    r.push(false);
    r.push(false);
    r.push(true);
    r.push(false);
    r.push(false);
    r.push(true);
    r.push(false);
    proof {
        assert(r@ =~= spec_format_mask());
    }
    r
}

/// The 15 raw format bits of a module matrix, in reading order.
pub open spec fn spec_raw_format_bits(modules: &QRCodeModules) -> Seq<bool> {
    let n = 4 * modules.version.spec_value() + 17;
    Seq::new(
        15,
        |k: int|
            {
                let p = spec_format_position(n, k + 1);
                modules.bits[p.0][p.1]
            },
    )
}

/// The format bits after the fixed mask is removed.
pub open spec fn spec_decoded_format_bits(modules: &QRCodeModules) -> Seq<bool> {
    Seq::new(15, |k: int| spec_raw_format_bits(modules)[k] != spec_format_mask()[k])
}

/// Reads the 15 format bits beside the top-left finder pattern, removes the
/// fixed XOR mask, and decodes the first two bits as the error-correction
/// level and the next three as the data mask.
#[verifier::loop_isolation(false)]
pub fn decode_format_information(modules: &QRCodeModules) -> (r: FormatInformation)
    requires
        modules.wf(),
        modules.version.spec_value() <= 0x10000000,
    ensures
        r.error_correction_level == spec_error_correction_level(
            spec_decoded_format_bits(modules)[0],
            spec_decoded_format_bits(modules)[1],
        ),
        r.mask == spec_mask(
            spec_decoded_format_bits(modules)[2],
            spec_decoded_format_bits(modules)[3],
            spec_decoded_format_bits(modules)[4],
        ),
{
    let mask_bits_vec = format_mask();
    let mut format_iterator = FormatInformationIteratorUpperRightLowerLeft::new(&modules.version);
    let mut format_vec: Vec<bool> = Vec::new();
    let mut k: usize = 0;
    while k < 15
        invariant
            k <= 15,
            format_iterator.current_index == k,
            format_iterator.number_of_modules == 4 * modules.version.spec_value() + 17,
            format_vec@.len() == k,
            forall|j: int|
                0 <= j < k ==> #[trigger] format_vec@[j] == (spec_raw_format_bits(modules)[j]
                    != spec_format_mask()[j]),
        decreases 15 - k,
    {
        match format_iterator.next() {
            Some(position) => {
                let raw = modules.bits[position.0][position.1];
                format_vec.push(raw != mask_bits_vec[k]);
            },
            None => {
                proof {
                    assert(false);
                }
            },
        }
        k += 1;
    }
    let error_correction_level_bits: [bool; 2] = [format_vec[0], format_vec[1]];
    let mask_bits: [bool; 3] = [format_vec[2], format_vec[3], format_vec[4]];
    proof {
        assert(format_vec@[0] == spec_decoded_format_bits(modules)[0]);
        assert(format_vec@[1] == spec_decoded_format_bits(modules)[1]);
        assert(format_vec@[2] == spec_decoded_format_bits(modules)[2]);
        assert(format_vec@[3] == spec_decoded_format_bits(modules)[3]);
        assert(format_vec@[4] == spec_decoded_format_bits(modules)[4]);
    }
    FormatInformation {
        error_correction_level: ErrorCorrectionLevel::from_bits(error_correction_level_bits),
        mask: Mask::from_bits(mask_bits),
    }
}

} // verus!
