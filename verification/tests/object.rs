use vxapo_driver::instance::object::{
    apoguid_nokey, apoguid_novalue, guid_matches, guid_null, is_special_guid, is_valid_apo_guid,
    ApoObjectState,
};
use vxapo_driver::object::vx_reg_props::{clsid_post_mix, clsid_pre_mix};

#[test]
fn special_guids_distinct() {
    assert_ne!(apoguid_nokey(), apoguid_novalue());
    assert_ne!(apoguid_nokey(), guid_null());
    assert_ne!(apoguid_novalue(), guid_null());
}

#[test]
fn is_special_guid_nokey() {
    assert!(is_special_guid(&apoguid_nokey()));
}

#[test]
fn is_special_guid_novalue() {
    assert!(is_special_guid(&apoguid_novalue()));
}

#[test]
fn is_special_guid_null() {
    assert!(!is_special_guid(&guid_null()));
}

#[test]
fn is_special_guid_real() {
    assert!(!is_special_guid(&clsid_pre_mix()));
}

#[test]
fn is_valid_apo_guid_real() {
    assert!(is_valid_apo_guid(&clsid_pre_mix()));
}

#[test]
fn is_valid_apo_guid_nokey() {
    assert!(!is_valid_apo_guid(&apoguid_nokey()));
}

#[test]
fn is_valid_apo_guid_novalue() {
    assert!(!is_valid_apo_guid(&apoguid_novalue()));
}

#[test]
fn is_valid_apo_guid_null() {
    assert!(!is_valid_apo_guid(&guid_null()));
}

#[test]
fn guid_matches_same() {
    assert!(guid_matches(&apoguid_nokey(), &apoguid_nokey()));
}

#[test]
fn guid_matches_different() {
    assert!(!guid_matches(&apoguid_nokey(), &apoguid_novalue()));
}

#[test]
fn apo_object_state_new() {
    let state = ApoObjectState::new(clsid_pre_mix());
    assert!(state.is_pre_mix());
    assert!(!state.is_post_mix());
    assert!(!state.is_locked);
    assert_eq!(state.sample_rate, 0);
    assert_eq!(state.input_channel_count, 0);
    assert_eq!(state.output_channel_count, 0);
    assert!(state.child_apo_guid.is_none());
    assert!(!state.allow_silent_buffer_modification);
}

#[test]
fn apo_object_state_post_mix() {
    let state = ApoObjectState::new(clsid_post_mix());
    assert!(!state.is_pre_mix());
    assert!(state.is_post_mix());
}

#[test]
fn apo_object_state_lock_unlock() {
    let mut state = ApoObjectState::new(clsid_pre_mix());

    state.lock_for_process(48000, 2, 2, 0x3, 32);
    assert!(state.is_locked);
    assert_eq!(state.sample_rate, 48000);
    assert_eq!(state.input_channel_count, 2);
    assert_eq!(state.output_channel_count, 2);
    assert_eq!(state.channel_mask, 0x3);
    assert_eq!(state.bits_per_sample, 32);

    state.unlock_for_process();
    assert!(!state.is_locked);
    assert_eq!(state.sample_rate, 0);
    assert_eq!(state.input_channel_count, 0);
}

#[test]
fn apo_object_state_format_debug() {
    let state = ApoObjectState::new(clsid_pre_mix());
    let debug = format!("{state:?}");
    assert!(debug.contains("clsid"));
    assert!(debug.contains("is_locked"));
}
