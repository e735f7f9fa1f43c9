use vxapo_driver::host::instance::apo_conf::{
    lock_for_process, unlock_for_process, ConnectionFormat, LockConfig,
};
use vxapo_driver::host::instance::apo_interface::ApoObject;
use vxapo_driver::hresult::{E_FAIL, S_FALSE, S_OK};
use vxapo_driver::object::vx_reg_props::{clsid_post_mix, clsid_pre_mix};

fn stereo_config() -> LockConfig {
    LockConfig {
        inputs: vec![ConnectionFormat {
            channel_count: 2,
            sample_rate: 48000,
            bits_per_sample: 32,
            channel_mask: 0x3,
        }],
        outputs: vec![ConnectionFormat {
            channel_count: 2,
            sample_rate: 48000,
            bits_per_sample: 32,
            channel_mask: 0x3,
        }],
    }
}

fn surround_config() -> LockConfig {
    LockConfig {
        inputs: vec![ConnectionFormat {
            channel_count: 6,
            sample_rate: 48000,
            bits_per_sample: 32,
            channel_mask: 0x3F,
        }],
        outputs: vec![ConnectionFormat {
            channel_count: 6,
            sample_rate: 48000,
            bits_per_sample: 32,
            channel_mask: 0x3F,
        }],
    }
}

#[test]
fn lock_stereo_success() {
    let mut alive: u32 = 0;
    let mut obj = ApoObject::new(clsid_pre_mix(), &mut alive);
    let config = stereo_config();
    let hr = lock_for_process(&mut obj, &config);
    assert_eq!(hr, S_OK);
    assert!(obj.state.is_locked);
    assert_eq!(obj.state.sample_rate, 48000);
    assert_eq!(obj.state.input_channel_count, 2);
    assert_eq!(obj.state.output_channel_count, 2);
    assert_eq!(obj.state.channel_mask, 0x3);
    assert_eq!(obj.state.bits_per_sample, 32);
    obj.release(&mut alive);
    assert_eq!(alive, 0);
}

#[test]
fn lock_surround_success() {
    let mut alive: u32 = 0;
    let mut obj = ApoObject::new(clsid_pre_mix(), &mut alive);
    let config = surround_config();
    let hr = lock_for_process(&mut obj, &config);
    assert_eq!(hr, S_OK);
    assert_eq!(obj.state.input_channel_count, 6);
    assert_eq!(obj.state.channel_mask, 0x3F);
    obj.release(&mut alive);
    assert_eq!(alive, 0);
}

#[test]
fn apo_conf_lock_fails_when_already_locked() {
    let mut alive: u32 = 0;
    let mut obj = ApoObject::new(clsid_pre_mix(), &mut alive);
    let config = stereo_config();

    lock_for_process(&mut obj, &config);
    let hr = lock_for_process(&mut obj, &config);
    assert_eq!(hr, E_FAIL);
    obj.release(&mut alive);
    assert_eq!(alive, 0);
}

#[test]
fn lock_fails_empty_inputs() {
    let mut alive: u32 = 0;
    let mut obj = ApoObject::new(clsid_pre_mix(), &mut alive);
    let config = LockConfig {
        inputs: vec![],
        outputs: vec![ConnectionFormat {
            channel_count: 2, sample_rate: 48000,
            bits_per_sample: 32, channel_mask: 0x3,
        }],
    };
    let hr = lock_for_process(&mut obj, &config);
    assert_eq!(hr, E_FAIL);
    obj.release(&mut alive);
    assert_eq!(alive, 0);
}

#[test]
fn lock_fails_empty_outputs() {
    let mut alive: u32 = 0;
    let mut obj = ApoObject::new(clsid_pre_mix(), &mut alive);
    let config = LockConfig {
        inputs: vec![ConnectionFormat {
            channel_count: 2, sample_rate: 48000,
            bits_per_sample: 32, channel_mask: 0x3,
        }],
        outputs: vec![],
    };
    let hr = lock_for_process(&mut obj, &config);
    assert_eq!(hr, E_FAIL);
    obj.release(&mut alive);
    assert_eq!(alive, 0);
}

#[test]
fn lock_fails_rate_mismatch() {
    let mut alive: u32 = 0;
    let mut obj = ApoObject::new(clsid_pre_mix(), &mut alive);
    let config = LockConfig {
        inputs: vec![ConnectionFormat {
            channel_count: 2, sample_rate: 44100,
            bits_per_sample: 32, channel_mask: 0x3,
        }],
        outputs: vec![ConnectionFormat {
            channel_count: 2, sample_rate: 48000,
            bits_per_sample: 32, channel_mask: 0x3,
        }],
    };
    let hr = lock_for_process(&mut obj, &config);
    assert_eq!(hr, E_FAIL);
    obj.release(&mut alive);
    assert_eq!(alive, 0);
}

#[test]
fn lock_fails_bits_mismatch() {
    let mut alive: u32 = 0;
    let mut obj = ApoObject::new(clsid_pre_mix(), &mut alive);
    let config = LockConfig {
        inputs: vec![ConnectionFormat {
            channel_count: 2, sample_rate: 48000,
            bits_per_sample: 16, channel_mask: 0x3,
        }],
        outputs: vec![ConnectionFormat {
            channel_count: 2, sample_rate: 48000,
            bits_per_sample: 32, channel_mask: 0x3,
        }],
    };
    let hr = lock_for_process(&mut obj, &config);
    assert_eq!(hr, E_FAIL);
    obj.release(&mut alive);
    assert_eq!(alive, 0);
}

#[test]
fn unlock_after_lock() {
    let mut alive: u32 = 0;
    let mut obj = ApoObject::new(clsid_pre_mix(), &mut alive);
    let config = stereo_config();

    lock_for_process(&mut obj, &config);
    assert!(obj.state.is_locked);

    let hr = unlock_for_process(&mut obj);
    assert_eq!(hr, S_OK);
    assert!(!obj.state.is_locked);
    assert_eq!(obj.state.sample_rate, 0);
    assert_eq!(obj.state.input_channel_count, 0);
    obj.release(&mut alive);
    assert_eq!(alive, 0);
}

#[test]
fn unlock_when_not_locked() {
    let mut alive: u32 = 0;
    let mut obj = ApoObject::new(clsid_pre_mix(), &mut alive);
    let hr = unlock_for_process(&mut obj);
    assert_eq!(hr, S_FALSE);
    obj.release(&mut alive);
    assert_eq!(alive, 0);
}

#[test]
fn lock_unlock_lock_cycle() {
    let mut alive: u32 = 0;
    let mut obj = ApoObject::new(clsid_pre_mix(), &mut alive);

    let config1 = stereo_config();
    assert_eq!(lock_for_process(&mut obj, &config1), S_OK);
    assert_eq!(obj.state.sample_rate, 48000);
    assert_eq!(obj.state.input_channel_count, 2);

    assert_eq!(unlock_for_process(&mut obj), S_OK);
    assert!(!obj.state.is_locked);

    let config2 = surround_config();
    assert_eq!(lock_for_process(&mut obj, &config2), S_OK);
    assert_eq!(obj.state.input_channel_count, 6);

    obj.release(&mut alive);
    assert_eq!(alive, 0);
}

#[test]
fn channel_count_no_child_uses_input() {
    let mut alive: u32 = 0;
    let mut obj = ApoObject::new(clsid_pre_mix(), &mut alive);
    assert!(obj.state.child_apo_guid.is_none());

    let config = LockConfig {
        inputs: vec![ConnectionFormat {
            channel_count: 4, sample_rate: 48000,
            bits_per_sample: 32, channel_mask: 0x33,
        }],
        outputs: vec![ConnectionFormat {
            channel_count: 2, sample_rate: 48000,
            bits_per_sample: 32, channel_mask: 0x3,
        }],
    };
    lock_for_process(&mut obj, &config);

    assert_eq!(obj.state.input_channel_count, 4);
    assert_eq!(obj.state.output_channel_count, 4);
    obj.release(&mut alive);
    assert_eq!(alive, 0);
}

#[test]
fn channel_count_with_child_uses_output() {
    let mut alive: u32 = 0;
    let mut obj = ApoObject::new(clsid_pre_mix(), &mut alive);
    obj.state.child_apo_guid = Some(clsid_post_mix());

    let config = LockConfig {
        inputs: vec![ConnectionFormat {
            channel_count: 2, sample_rate: 48000,
            bits_per_sample: 32, channel_mask: 0x3,
        }],
        outputs: vec![ConnectionFormat {
            channel_count: 6, sample_rate: 48000,
            bits_per_sample: 32, channel_mask: 0x3F,
        }],
    };
    lock_for_process(&mut obj, &config);

    assert_eq!(obj.state.input_channel_count, 2);
    assert_eq!(obj.state.output_channel_count, 6);
    obj.release(&mut alive);
    assert_eq!(alive, 0);
}

#[test]
fn channel_mask_premix_uses_output() {
    let mut alive: u32 = 0;
    let mut obj = ApoObject::new(clsid_pre_mix(), &mut alive);

    let config = LockConfig {
        inputs: vec![ConnectionFormat {
            channel_count: 2, sample_rate: 48000,
            bits_per_sample: 32, channel_mask: 0x3,
        }],
        outputs: vec![ConnectionFormat {
            channel_count: 2, sample_rate: 48000,
            bits_per_sample: 32, channel_mask: 0x3F,
        }],
    };
    lock_for_process(&mut obj, &config);

    assert_eq!(obj.state.channel_mask, 0x3F);
    obj.release(&mut alive);
    assert_eq!(alive, 0);
}

#[test]
fn channel_mask_postmix_uses_output() {
    let mut alive: u32 = 0;
    let mut obj = ApoObject::new(clsid_post_mix(), &mut alive);

    let config = LockConfig {
        inputs: vec![ConnectionFormat {
            channel_count: 2, sample_rate: 48000,
            bits_per_sample: 32, channel_mask: 0x3,
        }],
        outputs: vec![ConnectionFormat {
            channel_count: 2, sample_rate: 48000,
            bits_per_sample: 32, channel_mask: 0x3F,
        }],
    };
    lock_for_process(&mut obj, &config);

    assert_eq!(obj.state.channel_mask, 0x3F);
    obj.release(&mut alive);
    assert_eq!(alive, 0);
}

#[test]
fn channel_mask_output_zero_falls_back_to_input() {
    let mut alive: u32 = 0;
    let mut obj = ApoObject::new(clsid_pre_mix(), &mut alive);

    let config = LockConfig {
        inputs: vec![ConnectionFormat {
            channel_count: 2, sample_rate: 48000,
            bits_per_sample: 32, channel_mask: 0x3,
        }],
        outputs: vec![ConnectionFormat {
            channel_count: 2, sample_rate: 48000,
            bits_per_sample: 32, channel_mask: 0,
        }],
    };
    lock_for_process(&mut obj, &config);

    assert_eq!(obj.state.channel_mask, 0x3);
    obj.release(&mut alive);
    assert_eq!(alive, 0);
}

#[test]
fn connection_format_debug() {
    let fmt = ConnectionFormat {
        channel_count: 2,
        sample_rate: 48000,
        bits_per_sample: 32,
        channel_mask: 0x3,
    };
    let debug = format!("{fmt:?}");
    assert!(debug.contains("ConnectionFormat"));
    assert!(debug.contains("48000"));
}

#[test]
fn lock_config_debug() {
    let config = stereo_config();
    let debug = format!("{config:?}");
    assert!(debug.contains("LockConfig"));
}

#[test]
fn full_lock_process_unlock_cycle() {
    let mut alive: u32 = 0;
    let mut obj = ApoObject::new(clsid_pre_mix(), &mut alive);

    let config = stereo_config();
    assert_eq!(lock_for_process(&mut obj, &config), S_OK);
    assert!(obj.state.is_locked);
    assert_eq!(obj.get_input_channel_count(), 2);

    assert!(obj.state.is_locked);

    assert_eq!(unlock_for_process(&mut obj), S_OK);
    assert!(!obj.state.is_locked);
    assert_eq!(obj.get_input_channel_count(), 0);

    obj.release(&mut alive);
    assert_eq!(alive, 0);
}
