use vxapo_driver::audio_defs::{default_channel_mask, WAVE_FORMAT_EXTENSIBLE, WAVE_FORMAT_PCM};
use vxapo_driver::install::device::format::{parse_audio_format, resolve_channel_mask};

fn build_waveformatex(format_tag: u16, channels: u16, sample_rate: u32, bits: u16) -> Vec<u8> {
    let mut buf = Vec::with_capacity(18);
    buf.extend_from_slice(&format_tag.to_le_bytes());
    buf.extend_from_slice(&channels.to_le_bytes());
    buf.extend_from_slice(&sample_rate.to_le_bytes());
    buf.extend_from_slice(&(sample_rate * channels as u32 * bits as u32 / 8).to_le_bytes());
    buf.extend_from_slice(&(channels * bits / 8).to_le_bytes());
    buf.extend_from_slice(&bits.to_le_bytes());
    buf.extend_from_slice(&0u16.to_le_bytes());
    buf
}

fn build_waveformatextensible(
    channels: u16,
    sample_rate: u32,
    bits: u16,
    channel_mask: u32,
) -> Vec<u8> {
    let mut buf = Vec::with_capacity(40);
    buf.extend_from_slice(&WAVE_FORMAT_EXTENSIBLE.to_le_bytes());
    buf.extend_from_slice(&channels.to_le_bytes());
    buf.extend_from_slice(&sample_rate.to_le_bytes());
    buf.extend_from_slice(&(sample_rate * channels as u32 * bits as u32 / 8).to_le_bytes());
    buf.extend_from_slice(&(channels * bits / 8).to_le_bytes());
    buf.extend_from_slice(&bits.to_le_bytes());
    buf.extend_from_slice(&22u16.to_le_bytes());
    buf.extend_from_slice(&bits.to_le_bytes());
    buf.extend_from_slice(&channel_mask.to_le_bytes());
    buf.extend_from_slice(&[0u8; 16]);
    buf
}

#[test]
fn empty_bytes_returns_none() {
    assert!(parse_audio_format(&[], None).is_none());
}

#[test]
fn too_short_returns_none() {
    assert!(parse_audio_format(&[0u8; 17], None).is_none());
}

#[test]
fn exactly_minimum_length_parses() {
    let bytes = build_waveformatex(WAVE_FORMAT_PCM, 2, 48000, 16);
    assert_eq!(bytes.len(), 18);
    assert!(parse_audio_format(&bytes, None).is_some());
}

#[test]
fn parse_stereo_pcm_48k_16bit() {
    let bytes = build_waveformatex(WAVE_FORMAT_PCM, 2, 48000, 16);
    let fmt = parse_audio_format(&bytes, None).unwrap();
    assert_eq!(fmt.format_tag, WAVE_FORMAT_PCM);
    assert_eq!(fmt.channels, 2);
    assert_eq!(fmt.sample_rate, 48000);
    assert_eq!(fmt.bits_per_sample, 16);
    assert!(!fmt.is_extensible);
}

#[test]
fn parse_mono_pcm_44100_16bit() {
    let bytes = build_waveformatex(WAVE_FORMAT_PCM, 1, 44100, 16);
    let fmt = parse_audio_format(&bytes, None).unwrap();
    assert_eq!(fmt.channels, 1);
    assert_eq!(fmt.sample_rate, 44100);
}

#[test]
fn parse_8ch_pcm_96000_32bit() {
    let bytes = build_waveformatex(WAVE_FORMAT_PCM, 8, 96000, 32);
    let fmt = parse_audio_format(&bytes, None).unwrap();
    assert_eq!(fmt.channels, 8);
    assert_eq!(fmt.sample_rate, 96000);
    assert_eq!(fmt.bits_per_sample, 32);
}

#[test]
fn extensible_71_48k_extracts_channel_mask() {
    let bytes = build_waveformatextensible(8, 48000, 32, 0x063F);
    let fmt = parse_audio_format(&bytes, None).unwrap();
    assert_eq!(fmt.format_tag, WAVE_FORMAT_EXTENSIBLE);
    assert!(fmt.is_extensible);
    assert_eq!(fmt.channels, 8);
    assert_eq!(fmt.channel_mask, 0x063F);
}

#[test]
fn extensible_stereo_extracts_mask() {
    let bytes = build_waveformatextensible(2, 44100, 16, 0x0003);
    let fmt = parse_audio_format(&bytes, None).unwrap();
    assert!(fmt.is_extensible);
    assert_eq!(fmt.channel_mask, 0x0003);
}

#[test]
fn mask_from_extensible() {
    assert_eq!(resolve_channel_mask(0x063F, None, 8), 0x063F);
}

#[test]
fn mask_from_registry_when_extensible_zero() {
    assert_eq!(resolve_channel_mask(0, Some(0x00FF), 8), 0x00FF);
}

#[test]
fn mask_from_default_when_both_zero() {
    let expected = default_channel_mask(2);
    assert_eq!(resolve_channel_mask(0, None, 2), expected);
}

#[test]
fn mask_from_default_when_registry_zero() {
    let expected = default_channel_mask(8);
    assert_eq!(resolve_channel_mask(0, Some(0), 8), expected);
}

#[test]
fn pcm_with_registry_override() {
    let bytes = build_waveformatex(WAVE_FORMAT_PCM, 8, 48000, 32);
    let fmt = parse_audio_format(&bytes, Some(0x063F)).unwrap();
    assert_eq!(fmt.channel_mask, 0x063F);
}

#[test]
fn extensible_takes_precedence_over_override() {
    let bytes = build_waveformatextensible(8, 48000, 32, 0x063F);
    let fmt = parse_audio_format(&bytes, Some(0x00FF)).unwrap();
    assert_eq!(fmt.channel_mask, 0x063F);
}

#[test]
fn parse_24bit_pcm() {
    let bytes = build_waveformatex(WAVE_FORMAT_PCM, 2, 96000, 24);
    let fmt = parse_audio_format(&bytes, None).unwrap();
    assert_eq!(fmt.bits_per_sample, 24);
}
