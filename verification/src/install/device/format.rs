//! Audio formats as the registry holds them.

use vstd::prelude::*;
use crate::registry;
use crate::audio_defs;
use crate::audio_defs::{default_channel_mask, read_le16, read_le32, WAVE_FORMAT_EXTENSIBLE};
use crate::error::VxApoError;
use crate::registry::{RegKey, RegValue, ValueView};

verus! {

/// What a format says, once read.
#[derive(Clone, Copy, Debug, PartialEq, Eq, Structural)]
pub struct AudioFormat {
    pub format_tag: u16,
    pub channels: u16,
    pub sample_rate: u32,
    pub bits_per_sample: u16,
    pub channel_mask: u32,
    pub is_extensible: bool,
}

/// The channel mask in use: the format's own, else the registry's, else that of
/// the standard layout; a mask of zero counts as missing.
pub open spec fn effective_mask(
    extensible_mask: int,
    registry_mask: Option<u32>,
    channels: int,
) -> int {
    if extensible_mask != 0 {
        extensible_mask
    } else {
        match registry_mask {
            Some(mask) => if mask != 0 {
                mask as int
            } else {
                audio_defs::standard_mask(channels) as int
            },
            None => audio_defs::standard_mask(channels) as int,
        }
    }
}

/// The channel mask in use.
pub fn resolve_channel_mask(extensible_mask: u32, registry_mask: Option<u32>, channels: u16) -> (r:
    u32)
    ensures
        r == effective_mask(extensible_mask as int, registry_mask, channels as int),
{
    if extensible_mask != 0 {
        return extensible_mask;
    }
    if let Some(mask) = registry_mask {
        if mask != 0 {
            return mask;
        }
    }
    default_channel_mask(channels as u32)
}

/// The format that at least 18 bytes describe. The channel mask of an extensible
/// format stands in bytes 20 to 23, if all 40 bytes are there.
pub open spec fn format_of(bytes: Seq<u8>, registry_mask: Option<u32>) -> AudioFormat {
    let tag = audio_defs::le16(bytes, 0);
    let channels = audio_defs::le16(bytes, 2);
    let own_mask = if tag == WAVE_FORMAT_EXTENSIBLE && bytes.len() >= 40 {
        audio_defs::le32(bytes, 20)
    } else {
        0
    };
    AudioFormat {
        format_tag: tag as u16,
        channels: channels as u16,
        sample_rate: audio_defs::le32(bytes, 4) as u32,
        bits_per_sample: audio_defs::le16(bytes, 14) as u16,
        channel_mask: effective_mask(own_mask, registry_mask, channels) as u32,
        is_extensible: tag == WAVE_FORMAT_EXTENSIBLE,
    }
}

/// The format that bytes describe; `None` when there are fewer than 18.
pub fn parse_audio_format(bytes: &[u8], channel_mask_override: Option<u32>) -> (r: Option<
    AudioFormat,
>)
    ensures
        r == (if bytes@.len() >= 18 {
            Some(format_of(bytes@, channel_mask_override))
        } else {
            None
        }),
{
    if bytes.len() < 18 {
        return None;
    }
    let format_tag = read_le16(bytes, 0);
    let channels = read_le16(bytes, 2);
    let sample_rate = read_le32(bytes, 4);
    let bits_per_sample = read_le16(bytes, 14);
    let extensible_mask: u32 = if format_tag == WAVE_FORMAT_EXTENSIBLE && bytes.len() >= 40 {
        read_le32(bytes, 20)
    } else {
        0
    };
    let channel_mask = resolve_channel_mask(extensible_mask, channel_mask_override, channels);
    Some(
        AudioFormat {
            format_tag,
            channels,
            sample_rate,
            bits_per_sample,
            channel_mask,
            is_extensible: format_tag == WAVE_FORMAT_EXTENSIBLE,
        },
    )
}

/// The format that a registry value describes, with the channel mask of another.
pub open spec fn format_in(format: Option<ValueView>, mask: Option<u32>) -> Option<AudioFormat> {
    match format {
        Some(ValueView::Binary(bytes)) => if bytes.len() >= 18 {
            Some(format_of(bytes, mask))
        } else {
            None
        },
        _ => None,
    }
}

/// The format that a value of a key describes, with the channel mask that
/// another value may give; `None` when the first value is missing, is not
/// binary, or is too short.
pub fn read_audio_format(
    key: &RegKey,
    format_value_name: &str,
    channel_mask_value_name: Option<&str>,
) -> (r: Result<Option<AudioFormat>, VxApoError>)
    ensures
        r == Ok::<Option<AudioFormat>, VxApoError>(
            format_in(
                key.value(format_value_name@),
                match channel_mask_value_name {
                    Some(name) => registry::as_dword(key.value(name@)),
                    None => None,
                },
            ),
        ),
{
    let mask: Option<u32> = match channel_mask_value_name {
        Some(name) => key.read_dword(name),
        None => None,
    };
    match key.read_value(format_value_name) {
        Some(RegValue::Binary(raw)) => Ok(parse_audio_format(raw.as_slice(), mask)),
        _ => Ok(None),
    }
}

/// The channel mask in use is the format's own where it has one, else that of the
/// registry where that is not zero, else the one that the number of channels gives.
pub proof fn law_mask_order(own: u32, registry_mask: Option<u32>, channels: u16)
    ensures
        own != 0 ==> effective_mask(own as int, registry_mask, channels as int) == own,
        own == 0 ==> (registry_mask matches Some(m) ==> m != 0 ==> effective_mask(
            own as int,
            registry_mask,
            channels as int,
        ) == m),
        own == 0 && (registry_mask is None || registry_mask == Some(0u32)) ==> effective_mask(
            own as int,
            registry_mask,
            channels as int,
        ) == match channels {
            1 => 4,
            2 => 3,
            4 => 0x33,
            6 => 0x3F,
            8 => 0x63F,
            _ => 0int,
        },
{
}

/// A format is read from fixed bytes, the low ones first: the tag, the channels, the
/// rate, and the size of a sample.
pub proof fn law_format_fields(bytes: Seq<u8>, mask: Option<u32>)
    requires
        bytes.len() >= 18,
    ensures
        ({
            let f = format_of(bytes, mask);
            &&& f.format_tag == bytes[0] + 256 * bytes[1]
            &&& f.channels == bytes[2] + 256 * bytes[3]
            &&& f.sample_rate == bytes[4] + 256 * bytes[5] + 65536 * bytes[6] + 16777216 * bytes[7]
            &&& f.bits_per_sample == bytes[14] + 256 * bytes[15]
            &&& f.is_extensible <==> bytes[0] == 0xFE && bytes[1] == 0xFF
            &&& f.is_extensible && bytes.len() >= 40 ==> ({
                let own = bytes[20] + 256 * bytes[21] + 65536 * bytes[22] + 16777216 * bytes[23];
                own != 0 ==> f.channel_mask == own
            })
        }),
{
}

} // verus!
