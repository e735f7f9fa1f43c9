use vxapo_driver::host::instance::init::ApoInitParams;
use vxapo_driver::instance::object::{apoguid_novalue, guid_null};
use vxapo_driver::object::vx_reg_props::{clsid_post_mix, clsid_pre_mix};

#[test]
fn default_params_no_child() {
    let params = ApoInitParams::default_for_clsid(clsid_pre_mix());
    assert_eq!(params.apo_clsid, clsid_pre_mix());
    assert!(!params.has_child_apo());
    assert!(!params.allow_silent_buffer_modification);
}

#[test]
fn default_params_postmix() {
    let params = ApoInitParams::default_for_clsid(clsid_post_mix());
    assert_eq!(params.apo_clsid, clsid_post_mix());
}

#[test]
fn has_child_apo_with_valid_guid() {
    let mut params = ApoInitParams::default_for_clsid(clsid_pre_mix());
    params.child_apo_guid = clsid_post_mix();
    assert!(params.has_child_apo());
}

#[test]
fn has_child_apo_with_nokey() {
    let params = ApoInitParams::default_for_clsid(clsid_pre_mix());
    assert!(!params.has_child_apo());
}

#[test]
fn has_child_apo_with_novalue() {
    let mut params = ApoInitParams::default_for_clsid(clsid_pre_mix());
    params.child_apo_guid = apoguid_novalue();
    assert!(!params.has_child_apo());
}

#[test]
fn has_child_apo_with_null_guid() {
    let mut params = ApoInitParams::default_for_clsid(clsid_pre_mix());
    params.child_apo_guid = guid_null();
    assert!(!params.has_child_apo());
}

#[test]
fn init_params_debug() {
    let params = ApoInitParams::default_for_clsid(clsid_pre_mix());
    let debug = format!("{params:?}");
    assert!(debug.contains("ApoInitParams"));
}

#[test]
fn init_params_clone() {
    let params = ApoInitParams::default_for_clsid(clsid_pre_mix());
    let cloned = params.clone();
    assert_eq!(params.apo_clsid, cloned.apo_clsid);
}
