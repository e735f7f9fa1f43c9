use vxapo_driver::host::instance::apo_interface::{
    extract_waveformat, ApoObject, ConnectionDescriptor, ConnectionProperty, ProcessPlan,
};
use vxapo_driver::host::instance::apo_rt::{BUFFER_SILENT, BUFFER_VALID};
use vxapo_driver::host::instance::audio_compat::{
    check_format_compatibility, extract_format_info, is_ieee_float_format, FormatCompatibility,
};
use vxapo_driver::hresult::{E_FAIL, E_INVALIDARG, E_POINTER, S_OK};
use vxapo_driver::object::vx_reg_props::clsid_pre_mix;

fn format(tag: u16, channels: u16, rate: u32, bits: u16) -> Vec<u8> {
    let mut b: Vec<u8> = Vec::new();
    b.extend_from_slice(&tag.to_le_bytes());
    b.extend_from_slice(&channels.to_le_bytes());
    b.extend_from_slice(&rate.to_le_bytes());
    b.extend_from_slice(&[0; 6]);
    b.extend_from_slice(&bits.to_le_bytes());
    b.extend_from_slice(&[0, 0]);
    b
}

fn connection(channels: u16, rate: u32) -> ConnectionDescriptor {
    ConnectionDescriptor { format: Some(format(3, channels, rate, 32)), max_frame_count: 480 }
}

fn buffer(p: usize, frames: u32, flags: u32) -> ConnectionProperty {
    ConnectionProperty { p_buffer: p, valid_frame_count: frames, buffer_flags: flags }
}

#[test]
fn an_object_agrees_on_a_format_once() {
    let mut alive: u32 = 0;
    let mut apo = ApoObject::new(clsid_pre_mix(), &mut alive);
    let (i, o) = (connection(2, 48000), connection(6, 48000));
    assert_eq!(apo.lock_for_process(1, Some(&i), 1, Some(&o)), S_OK);
    let p = apo.pipeline.unwrap();
    assert_eq!((p.smoothing_length, p.max_frames, p.max_channels), (480, 480, 6));
    assert_eq!(apo.lock_for_process(1, Some(&i), 1, Some(&o)), E_FAIL);
    assert_eq!(apo.unlock_for_process(), S_OK);
    assert!(apo.pipeline.is_none());
    assert_eq!(apo.lock_for_process(1, Some(&i), 1, Some(&o)), S_OK);
}

#[test]
fn an_object_refuses_what_it_cannot_process() {
    let mut alive: u32 = 0;
    let mut apo = ApoObject::new(clsid_pre_mix(), &mut alive);
    let (i, o) = (connection(2, 48000), connection(2, 44100));
    assert_eq!(apo.lock_for_process(1, Some(&i), 1, Some(&o)), E_INVALIDARG);
    assert_eq!(apo.lock_for_process(0, Some(&i), 1, Some(&i)), E_INVALIDARG);
    assert_eq!(apo.lock_for_process(1, None, 1, Some(&i)), E_INVALIDARG);
    let unknown = ConnectionDescriptor { format: None, max_frame_count: 480 };
    assert_eq!(apo.lock_for_process(1, Some(&i), 1, Some(&unknown)), E_INVALIDARG);
    assert_eq!(apo.lock_for_process(1, Some(&connection(0, 1)), 1, Some(&connection(2, 1))), E_INVALIDARG);
    assert!(!apo.state.is_locked);
    assert_eq!(apo.get_latency(false), Err(E_POINTER));
    assert_eq!(apo.get_latency(true), Ok(0));
}

#[test]
fn a_buffer_is_processed_once_a_format_is_agreed() {
    let mut alive: u32 = 0;
    let mut apo = ApoObject::new(clsid_pre_mix(), &mut alive);
    let (i, o) = (buffer(16, 480, BUFFER_VALID), buffer(32, 0, BUFFER_SILENT));
    assert_eq!(apo.apo_process_inner(1, Some(&i), 1, Some(&o)), ProcessPlan::Silence);
    let d = connection(2, 48000);
    apo.lock_for_process(1, Some(&d), 1, Some(&d));
    assert_eq!(
        apo.apo_process_inner(1, Some(&i), 1, Some(&o)),
        ProcessPlan::Run {
            frame_count: 480,
            input_channels: 2,
            output_channels: 2,
            input_samples: 960,
            output_samples: 960,
            input_flags: BUFFER_VALID,
        }
    );
    let silent = buffer(16, 480, BUFFER_SILENT);
    assert!(matches!(
        apo.apo_process_inner(1, Some(&silent), 1, Some(&o)),
        ProcessPlan::Run { input_samples: 0, output_samples: 960, .. }
    ));
    assert_eq!(
        apo.apo_process_inner(1, Some(&buffer(16, 0, BUFFER_VALID)), 1, Some(&o)),
        ProcessPlan::Silence
    );
    assert_eq!(
        apo.apo_process_inner(1, Some(&i), 1, Some(&buffer(0, 480, BUFFER_VALID))),
        ProcessPlan::Silence
    );
}

#[test]
fn a_failed_processing_leaves_silence() {
    let mut alive: u32 = 0;
    let mut apo = ApoObject::new(clsid_pre_mix(), &mut alive);
    let d = connection(2, 48000);
    apo.lock_for_process(1, Some(&d), 1, Some(&d));
    let mut outputs = vec![buffer(32, 480, BUFFER_VALID), buffer(0, 480, BUFFER_VALID)];
    assert!(apo.apo_process(&mut outputs, 2, Some(BUFFER_VALID)).is_empty());
    assert_eq!(outputs[0].buffer_flags, BUFFER_VALID);
    assert_eq!(apo.apo_process(&mut outputs, 2, None), vec![960, 0]);
    assert!(outputs.iter().all(|p| p.buffer_flags == BUFFER_SILENT));
}

/// Without a pipeline the outputs are silenced over all of their frames.
#[test]
fn an_object_without_a_format_leaves_silence() {
    let mut alive: u32 = 0;
    let mut apo = ApoObject::new(clsid_pre_mix(), &mut alive);
    let d = connection(2, 48000);
    let o = buffer(32, 480, BUFFER_VALID);
    let mut outputs = vec![o, buffer(64, 10, BUFFER_VALID)];
    assert_eq!(apo.apo_process_inner(1, Some(&o), 1, Some(&o)), ProcessPlan::Silence);
    assert_eq!(apo.apo_process(&mut outputs, 6, None), vec![2880, 60]);
    assert!(outputs.iter().all(|p| p.buffer_flags == BUFFER_SILENT));
    apo.lock_for_process(1, Some(&d), 1, Some(&d));
    apo.unlock_for_process();
    assert_eq!(apo.apo_process_inner(1, Some(&o), 1, Some(&o)), ProcessPlan::Silence);
    assert_eq!(apo.apo_process(&mut outputs, 2, None), vec![960, 20]);
}

#[test]
fn formats_are_read_from_their_bytes() {
    let f = format(1, 2, 44100, 16);
    let w = extract_waveformat(Some(&f)).unwrap();
    assert_eq!((w.sample_rate, w.channels, w.bits_per_sample, w.channel_mask), (44100, 2, 16, 3));
    assert_eq!(extract_waveformat(None), None);
    assert_eq!(extract_format_info(Some(&f)), Some((44100, 2, 16)));
    assert!(!is_ieee_float_format(Some(&f)));
    assert!(is_ieee_float_format(Some(&format(3, 2, 44100, 32))));
    assert!(!is_ieee_float_format(None));
}

/// An extended format: the valid bits, the channel mask and the sub-format follow the
/// base.
fn extended(channels: u16, mask: u32, sub_format: u8) -> Vec<u8> {
    let mut b = format(0xFFFE, channels, 48000, 32);
    b[16..18].copy_from_slice(&22u16.to_le_bytes());
    b.extend_from_slice(&32u16.to_le_bytes());
    b.extend_from_slice(&mask.to_le_bytes());
    b.extend_from_slice(&[sub_format, 0, 0, 0, 0, 0, 0x10, 0]);
    b.extend_from_slice(&[0x80, 0x00, 0x00, 0xAA, 0x00, 0x38, 0x9B, 0x71]);
    b
}

#[test]
fn an_extended_format_has_a_mask_and_a_sub_format() {
    let float = extended(6, 0x60F, 3);
    assert_eq!(float.len(), 40);
    assert_eq!(extract_waveformat(Some(&float)).unwrap().channel_mask, 0x60F);
    assert!(is_ieee_float_format(Some(&float)));
    assert!(!is_ieee_float_format(Some(&extended(6, 0x60F, 1))));
    assert_eq!(
        check_format_compatibility(Some(&float), Some(&format(3, 6, 48000, 32))),
        FormatCompatibility::Compatible
    );
}

#[test]
fn formats_go_together_unless_something_is_lost() {
    let stereo = format(3, 2, 48000, 32);
    let surround = format(3, 6, 48000, 32);
    let slow = format(3, 2, 44100, 32);
    let pcm = format(1, 2, 48000, 16);
    let check = |a: &[u8], b: &[u8]| check_format_compatibility(Some(a), Some(b));
    assert_eq!(check(&stereo, &stereo), FormatCompatibility::Compatible);
    assert_eq!(check(&stereo, &surround), FormatCompatibility::Compatible);
    assert_eq!(check(&surround, &stereo), FormatCompatibility::AlternativeAvailable);
    assert_eq!(check(&stereo, &slow), FormatCompatibility::Incompatible);
    assert_eq!(check(&stereo, &pcm), FormatCompatibility::Incompatible);
    assert_eq!(check_format_compatibility(None, Some(&stereo)), FormatCompatibility::Incompatible);
}
