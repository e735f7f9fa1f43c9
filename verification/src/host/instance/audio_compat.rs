//! Whether the formats of an input and an output go together.
//!
//! A format is given by its bytes: 18 in any case, and 40 where it carries a
//! sub-format. There may be none.

use vstd::prelude::*;
use crate::audio_defs;
use crate::audio_defs::{
    read_le16, read_le32, WAVE_FORMAT_EXTENSIBLE, WAVE_FORMAT_IEEE_FLOAT,
};
use crate::guid;
use crate::guid::{guid_from_bytes, GUID};

verus! {

/// Where the sub-format of a format stands.
pub const SUBFORMAT_OFFSET: usize = 24;

/// The extra bytes of a format that carries a sub-format.
pub const EXTENSION_SIZE: u16 = 22;

/// The sub-format of floating-point samples.
#[verifier::allow_in_spec]
pub fn subtype_ieee_float() -> GUID
    returns
        (GUID {
            data1: 0x00000003,
            data2: 0x0000,
            data3: 0x0010,
            data4: [0x80, 0x00, 0x00, 0xAA, 0x00, 0x38, 0x9B, 0x71],
        }),
{
    GUID {
        data1: 0x00000003,
        data2: 0x0000,
        data3: 0x0010,
        data4: [0x80, 0x00, 0x00, 0xAA, 0x00, 0x38, 0x9B, 0x71],
    }
}

/// How two formats go together.
#[derive(Clone, Copy, Debug, PartialEq, Eq, Structural)]
pub enum FormatCompatibility {
    Compatible,
    /// Not as they are, but another pair would do.
    AlternativeAvailable,
    Incompatible,
}

/// Whether a format carries a sub-format.
pub open spec fn is_extended(b: Seq<u8>) -> bool {
    audio_defs::le16(b, 0) == WAVE_FORMAT_EXTENSIBLE && audio_defs::le16(b, 16) >= EXTENSION_SIZE
}

/// Whether bytes are those of a format.
pub open spec fn is_format(b: Seq<u8>) -> bool {
    b.len() >= 18 && (is_extended(b) ==> b.len() >= 40)
}

/// Whether there is no format, or bytes are those of one.
pub open spec fn may_be_format(wfx: Option<&[u8]>) -> bool {
    wfx matches Some(b) ==> is_format(b@)
}

/// Whether a format has floating-point samples.
pub open spec fn is_float(b: Seq<u8>) -> bool {
    ||| audio_defs::le16(b, 0) == WAVE_FORMAT_IEEE_FLOAT
    ||| is_extended(b) && guid::bytes_guid(
        b.subrange(SUBFORMAT_OFFSET as int, SUBFORMAT_OFFSET + 16),
    ) == Some(subtype_ieee_float())
}

/// How the formats of an input and an output go together: both floating-point,
/// at the same rate, and no channels lost from more than two.
pub open spec fn compatibility(input: Seq<u8>, output: Seq<u8>) -> FormatCompatibility {
    if !is_float(input) || !is_float(output) || audio_defs::le32(input, 4) != audio_defs::le32(
        output,
        4,
    ) {
        FormatCompatibility::Incompatible
    } else if audio_defs::le16(input, 2) > 2 && audio_defs::le16(output, 2) < audio_defs::le16(
        input,
        2,
    ) {
        FormatCompatibility::AlternativeAvailable
    } else {
        FormatCompatibility::Compatible
    }
}

fn float_bytes(b: &[u8]) -> (r: bool)
    requires
        is_format(b@),
    ensures
        r == is_float(b@),
{
    let tag = read_le16(b, 0);
    if tag == WAVE_FORMAT_IEEE_FLOAT {
        return true;
    }
    if tag == WAVE_FORMAT_EXTENSIBLE {
        if read_le16(b, 16) < EXTENSION_SIZE {
            return false;
        }
        let mut sub: Vec<u8> = Vec::new();
        let mut i: usize = 0;
        while i < 16
            invariant
                i <= 16,
                b@.len() >= 40,
                sub@ == b@.subrange(24, 24 + i),
            decreases 16 - i,
        {
            sub.push(b[SUBFORMAT_OFFSET + i]);
            i += 1;
            assert(sub@ =~= b@.subrange(24, 24 + i));
        }
        match guid_from_bytes(sub.as_slice()) {
            Some(g) => g == subtype_ieee_float(),
            None => false,
        }
    } else {
        false
    }
}

/// Whether a format has floating-point samples; no format has none.
pub fn is_ieee_float_format(wfx: Option<&[u8]>) -> (r: bool)
    requires
        may_be_format(wfx),
    ensures
        r == (wfx matches Some(b) && is_float(b@)),
{
    match wfx {
        Some(b) => float_bytes(b),
        None => false,
    }
}

/// The sample rate, the number of channels and the sample size of a format.
pub fn extract_format_info(wfx: Option<&[u8]>) -> (r: Option<(u32, u32, u32)>)
    requires
        may_be_format(wfx),
    ensures
        r == (match wfx {
            Some(b) => Some(
                (
                    audio_defs::le32(b@, 4) as u32,
                    audio_defs::le16(b@, 2) as u32,
                    audio_defs::le16(b@, 14) as u32,
                ),
            ),
            None => None,
        }),
{
    match wfx {
        Some(b) => {
            let rate = read_le32(b, 4);
            let channels: u32 = read_le16(b, 2) as u32;
            let bits: u32 = read_le16(b, 14) as u32;
            Some((rate, channels, bits))
        },
        None => None,
    }
}

/// How the formats of an input and an output go together; a missing format goes
/// with none.
pub fn check_format_compatibility(input_wfx: Option<&[u8]>, output_wfx: Option<&[u8]>) -> (r:
    FormatCompatibility)
    requires
        may_be_format(input_wfx),
        may_be_format(output_wfx),
    ensures
        r == (match (input_wfx, output_wfx) {
            (Some(i), Some(o)) => compatibility(i@, o@),
            _ => FormatCompatibility::Incompatible,
        }),
{
    match (input_wfx, output_wfx) {
        (Some(input), Some(output)) => {
            if !float_bytes(input) || !float_bytes(output) {
                return FormatCompatibility::Incompatible;
            }
            if read_le32(input, 4) != read_le32(output, 4) {
                return FormatCompatibility::Incompatible;
            }
            let input_channels = read_le16(input, 2);
            let output_channels = read_le16(output, 2);
            if input_channels > 2 && output_channels < input_channels {
                return FormatCompatibility::AlternativeAvailable;
            }
            FormatCompatibility::Compatible
        },
        _ => FormatCompatibility::Incompatible,
    }
}

/// A floating-point format goes with itself.
pub proof fn law_format_goes_with_itself(b: Seq<u8>)
    requires
        is_float(b),
    ensures
        compatibility(b, b) == FormatCompatibility::Compatible,
{
}

/// Formats go together only where both have floating-point samples at the same rate; then
/// as they are unless channels are lost from more than two, when another pair would do.
pub proof fn law_compatibility(input: Seq<u8>, output: Seq<u8>)
    requires
        is_format(input),
        is_format(output),
    ensures
        ({
            let same_rate = input[4] == output[4] && input[5] == output[5] && input[6] == output[6]
                && input[7] == output[7];
            let i = input[2] + 256 * input[3];
            let o = output[2] + 256 * output[3];
            let c = compatibility(input, output);
            &&& c is Incompatible <==> !is_float(input) || !is_float(output) || !same_rate
            &&& i <= o || i <= 2 ==> !(c is AlternativeAvailable)
            &&& i > 2 && o < i ==> !(c is Compatible)
        }),
{
}

/// Samples are floating-point where the tag says so, or where it says that a sub-format
/// does and that is the one of floating-point samples; plain whole numbers never are.
pub proof fn law_float_formats(b: Seq<u8>)
    requires
        is_format(b),
    ensures
        b[0] == 3 && b[1] == 0 ==> is_float(b),
        is_float(b) ==> (b[0] == 3 && b[1] == 0) || (b[0] == 0xFE && b[1] == 0xFF && b[16] + 256
            * b[17] >= 22),
        b[0] == 1 && b[1] == 0 ==> !is_float(b),
{
}

} // verus!
