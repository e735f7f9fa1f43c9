use vxapo_driver::host::instance::apo_interface::{
    check_format_support, ApoObject, FormatNegotiation, FormatSupportResult,
};
use vxapo_driver::host::instance::reg_props::props_for_clsid;
use vxapo_driver::hresult::{E_INVALIDARG, S_OK};
use vxapo_driver::instance::ref_count;
use vxapo_driver::object::vx_reg_props::{clsid_post_mix, clsid_pre_mix};

#[test]
fn inst_count_new_drop() {
    let mut alive: u32 = 0;
    ref_count::reset_for_test(&mut alive);
    {
        let apo = ApoObject::new(clsid_pre_mix(), &mut alive);
        assert_eq!(ref_count::get(&alive), 1);
        apo.release(&mut alive);
    }
    assert_eq!(ref_count::get(&alive), 0);
}

#[test]
fn inst_count_com_lifecycle() {
    let mut alive: u32 = 0;
    ref_count::reset_for_test(&mut alive);
    {
        let apo = ApoObject::new(clsid_pre_mix(), &mut alive);
        let unknown: Box<ApoObject> = Box::new(apo);
        assert_eq!(ref_count::get(&alive), 1);
        unknown.release(&mut alive);
    }
    assert_eq!(ref_count::get(&alive), 0);
}

#[test]
fn inst_count_multiple() {
    let mut alive: u32 = 0;
    ref_count::reset_for_test(&mut alive);
    let a = ApoObject::new(clsid_pre_mix(), &mut alive);
    let b = ApoObject::new(clsid_post_mix(), &mut alive);
    assert_eq!(ref_count::get(&alive), 2);
    a.release(&mut alive);
    assert_eq!(ref_count::get(&alive), 1);
    b.release(&mut alive);
    assert_eq!(ref_count::get(&alive), 0);
}

#[test]
fn reset_returns_ok() {
    let mut alive: u32 = 0;
    ref_count::reset_for_test(&mut alive);
    let mut apo = ApoObject::new(clsid_pre_mix(), &mut alive);

    apo.state.lock_for_process(48000, 2, 2, 0x3, 32);
    apo.latency_samples = 256;
    assert!(apo.state.is_locked);

    assert_eq!(apo.reset(), S_OK);
    assert!(apo.pipeline.is_none());

    assert!(!apo.state.is_locked);
    assert_eq!(apo.latency_samples, 0);
    apo.release(&mut alive);
}

#[test]
fn get_latency_zero_default() {
    let mut alive: u32 = 0;
    ref_count::reset_for_test(&mut alive);
    let apo = ApoObject::new(clsid_pre_mix(), &mut alive);
    assert_eq!(apo.latency_samples, 0);
    assert_eq!(apo.state.sample_rate, 0);
    apo.release(&mut alive);
}

#[test]
fn get_latency_calculation() {
    let mut alive: u32 = 0;
    ref_count::reset_for_test(&mut alive);
    let mut apo = ApoObject::new(clsid_pre_mix(), &mut alive);
    apo.latency_samples = 480;
    apo.state.lock_for_process(48000, 2, 2, 0x3, 32);

    let samples = apo.latency_samples;
    let rate = apo.state.sample_rate;
    let latency = samples as i64 * 10_000_000 / rate as i64;
    assert_eq!(apo.get_latency(true), Ok(100_000));
    assert_eq!(latency, 100_000);
    apo.release(&mut alive);
}

#[test]
fn get_input_channel_count_unlocked() {
    let mut alive: u32 = 0;
    ref_count::reset_for_test(&mut alive);
    let apo = ApoObject::new(clsid_pre_mix(), &mut alive);
    {
        let state = &apo.state;
        assert!(!state.is_locked);
        let count = if state.is_locked { state.input_channel_count } else { 0 };
        assert_eq!(count, 0);
        assert_eq!(apo.get_input_channel_count(), 0);
    }
    apo.release(&mut alive);
}

#[test]
fn get_input_channel_count_locked() {
    let mut alive: u32 = 0;
    ref_count::reset_for_test(&mut alive);
    let mut apo = ApoObject::new(clsid_pre_mix(), &mut alive);
    apo.state.lock_for_process(48000, 6, 6, 0x3F, 32);
    {
        let state = &apo.state;
        assert!(state.is_locked);
        assert_eq!(state.input_channel_count, 6);
        assert_eq!(apo.get_input_channel_count(), 6);
    }
    apo.release(&mut alive);
}

#[test]
fn lock_unlock_cycle() {
    let mut alive: u32 = 0;
    ref_count::reset_for_test(&mut alive);
    let mut apo = ApoObject::new(clsid_pre_mix(), &mut alive);

    assert!(!apo.state.is_locked);

    {
        let state = &mut apo.state;
        assert!(!state.is_locked);
        state.lock_for_process(48000, 2, 2, 0x3, 32);
        assert!(state.is_locked);
        assert_eq!(state.sample_rate, 48000);
    }

    {
        let state = &mut apo.state;
        assert!(state.is_locked);
        state.unlock_for_process();
        assert!(!state.is_locked);
        assert_eq!(state.sample_rate, 0);
    }

    apo.release(&mut alive);
}

#[test]
fn apo_interface_lock_fails_when_already_locked() {
    let mut alive: u32 = 0;
    ref_count::reset_for_test(&mut alive);
    let mut apo = ApoObject::new(clsid_pre_mix(), &mut alive);

    apo.state.lock_for_process(48000, 2, 2, 0x3, 32);

    {
        let state = &apo.state;
        assert!(state.is_locked);
    }
    apo.release(&mut alive);
}

#[test]
fn calc_frames_no_pipeline() {
    let mut alive: u32 = 0;
    ref_count::reset_for_test(&mut alive);
    let apo = ApoObject::new(clsid_pre_mix(), &mut alive);

    assert!(apo.pipeline.is_none());
    assert_eq!(apo.calc_input_frames(480), 480);
    assert_eq!(apo.calc_output_frames(480), 480);

    apo.release(&mut alive);
}

#[test]
fn initialize_null_check() {
    let mut alive: u32 = 0;
    let apo = ApoObject::new(clsid_pre_mix(), &mut alive);
    assert_eq!(apo.initialize(36, false), E_INVALIDARG);
}

#[test]
fn initialize_size_check() {
    let cb_data_size: u32 = 10;
    assert!(cb_data_size < 36);
    let mut alive: u32 = 0;
    let apo = ApoObject::new(clsid_pre_mix(), &mut alive);
    assert_eq!(apo.initialize(cb_data_size, true), E_INVALIDARG);
    assert_eq!(apo.initialize(36, true), S_OK);
}

#[test]
fn get_registration_properties_premix() {
    let mut alive: u32 = 0;
    ref_count::reset_for_test(&mut alive);
    let apo = ApoObject::new(clsid_pre_mix(), &mut alive);

    let props = props_for_clsid(&apo.clsid).unwrap();
    assert_eq!(props.clsid, clsid_pre_mix());
    assert_eq!(props.num_apo_interfaces, 3);
    apo.release(&mut alive);
}

#[test]
fn format_supported_stereo() {
    let neg = FormatNegotiation {
        input_channels: 2, output_channels: 2,
        input_sample_rate: 48000, output_sample_rate: 48000,
        input_bits_per_sample: 32, output_bits_per_sample: 32,
        input_channel_mask: 0x3, output_channel_mask: 0x3,
    };
    assert_eq!(check_format_support(&neg), FormatSupportResult::Supported);
}

#[test]
fn format_unsupported_rate_mismatch() {
    let neg = FormatNegotiation {
        input_channels: 2, output_channels: 2,
        input_sample_rate: 44100, output_sample_rate: 48000,
        input_bits_per_sample: 32, output_bits_per_sample: 32,
        input_channel_mask: 0x3, output_channel_mask: 0x3,
    };
    assert_eq!(check_format_support(&neg), FormatSupportResult::Unsupported);
}

#[test]
fn format_downmix_too_many_channels() {
    let neg = FormatNegotiation {
        input_channels: 8, output_channels: 2,
        input_sample_rate: 48000, output_sample_rate: 48000,
        input_bits_per_sample: 32, output_bits_per_sample: 32,
        input_channel_mask: 0xFF, output_channel_mask: 0x3,
    };
    assert_eq!(
        check_format_support(&neg),
        FormatSupportResult::UnsupportedWithAlternative
    );
}

#[test]
fn format_upmix_allowed() {
    let neg = FormatNegotiation {
        input_channels: 2, output_channels: 8,
        input_sample_rate: 48000, output_sample_rate: 48000,
        input_bits_per_sample: 32, output_bits_per_sample: 32,
        input_channel_mask: 0x3, output_channel_mask: 0xFF,
    };
    assert_eq!(check_format_support(&neg), FormatSupportResult::Supported);
}
