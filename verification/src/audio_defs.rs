//! Audio formats: constants, little-endian fields, and standard layouts.

use vstd::prelude::*;

verus! {

/// The format tag of plain PCM.
pub const WAVE_FORMAT_PCM: u16 = 0x0001;

/// The format tag of floating-point samples.
pub const WAVE_FORMAT_IEEE_FLOAT: u16 = 0x0003;

/// The format tag of a format that carries a channel mask and a sub-format.
pub const WAVE_FORMAT_EXTENSIBLE: u16 = 0xFFFE;

/// The 16-bit little-endian field at a position.
pub open spec fn le16(b: Seq<u8>, i: int) -> int {
    b[i] + b[i + 1] * 0x100
}

/// The 32-bit little-endian field at a position.
pub open spec fn le32(b: Seq<u8>, i: int) -> int {
    b[i] + b[i + 1] * 0x100 + b[i + 2] * 0x1_0000 + b[i + 3] * 0x100_0000
}

/// The 16-bit little-endian field at a position.
pub fn read_le16(b: &[u8], i: usize) -> (r: u16)
    requires
        i + 2 <= b.len(),
    ensures
        r == le16(b@, i as int),
{
    b[i] as u16 + b[i + 1] as u16 * 0x100
}

/// The 32-bit little-endian field at a position.
pub fn read_le32(b: &[u8], i: usize) -> (r: u32)
    requires
        i + 4 <= b.len(),
    ensures
        r == le32(b@, i as int),
{
    b[i] as u32 + b[i + 1] as u32 * 0x100 + b[i + 2] as u32 * 0x1_0000 + b[i + 3] as u32
        * 0x100_0000
}

/// The speaker positions of the standard layout with this many channels; zero
/// where there is no standard layout.
pub open spec fn standard_mask(channels: int) -> u32 {
    if channels == 1 {
        0x4
    } else if channels == 2 {
        0x3
    } else if channels == 4 {
        0x33
    } else if channels == 6 {
        0x3F
    } else if channels == 8 {
        0x63F
    } else {
        0
    }
}

/// The speaker positions of the standard layout with this many channels.
pub fn default_channel_mask(channels: u32) -> (r: u32)
    ensures
        r == standard_mask(channels as int),
{
    if channels == 1 {
        0x4
    } else if channels == 2 {
        0x3
    } else if channels == 4 {
        0x33
    } else if channels == 6 {
        0x3F
    } else if channels == 8 {
        0x63F
    } else {
        0
    }
}

} // verus!
