use vxapo_driver::guid::GUID;
use vxapo_driver::host::instance::reg_props::{
    is_vxapo_clsid, props_for_clsid, reg_props_post_mix, reg_props_pre_mix, str_to_u16_256,
    supported_clsids, AudioFlowType, APO_FLAG_BITSPERSAMPLE_MUST_MATCH,
    APO_FLAG_FRAMESPERSECOND_MUST_MATCH, APO_FLAG_INPLACE,
};
use vxapo_driver::object::vx_reg_props::{clsid_post_mix, clsid_pre_mix};

#[test]
fn clsids_are_distinct() {
    assert_ne!(clsid_pre_mix(), clsid_post_mix());
}

#[test]
fn clsids_are_non_null() {
    let null = GUID::zeroed();
    assert_ne!(clsid_pre_mix(), null);
    assert_ne!(clsid_post_mix(), null);
}

#[test]
fn apo_name_encoded_correctly() {
    assert_eq!(reg_props_pre_mix().sz_name[0], 'V' as u16);
    assert_eq!(reg_props_pre_mix().sz_name[1], 'x' as u16);
    assert_eq!(reg_props_pre_mix().sz_name[2], 'A' as u16);
    assert_eq!(reg_props_pre_mix().sz_name[3], 'P' as u16);
    assert_eq!(reg_props_pre_mix().sz_name[4], 'O' as u16);
    assert_eq!(reg_props_pre_mix().sz_name[5], 0);
}

#[test]
fn apo_copyright_encoded_correctly() {
    assert_eq!(reg_props_pre_mix().sz_copyright[0], 'V' as u16);
    assert_eq!(reg_props_pre_mix().sz_copyright[1], 'x' as u16);
    assert_eq!(reg_props_pre_mix().sz_copyright[13], 0);
}

#[test]
fn flags_value() {
    let expected = APO_FLAG_INPLACE
        | APO_FLAG_FRAMESPERSECOND_MUST_MATCH
        | APO_FLAG_BITSPERSAMPLE_MUST_MATCH;
    assert_eq!(reg_props_pre_mix().flags, expected);
    assert_eq!(reg_props_post_mix().flags, expected);
}

#[test]
fn props_share_everything_except_clsid() {
    assert_eq!(reg_props_pre_mix().flags, reg_props_post_mix().flags);
    assert_eq!(
        reg_props_pre_mix().major_version,
        reg_props_post_mix().major_version
    );
    assert_eq!(
        reg_props_pre_mix().minor_version,
        reg_props_post_mix().minor_version
    );
    assert_eq!(
        reg_props_pre_mix().min_input_connections,
        reg_props_post_mix().min_input_connections
    );
    assert_eq!(
        reg_props_pre_mix().max_input_connections,
        reg_props_post_mix().max_input_connections
    );
    assert_eq!(
        reg_props_pre_mix().min_output_connections,
        reg_props_post_mix().min_output_connections
    );
    assert_eq!(
        reg_props_pre_mix().max_output_connections,
        reg_props_post_mix().max_output_connections
    );
    assert_eq!(
        reg_props_pre_mix().max_instances,
        reg_props_post_mix().max_instances
    );
    assert_eq!(
        reg_props_pre_mix().audio_flow_type,
        reg_props_post_mix().audio_flow_type
    );
    assert_eq!(reg_props_pre_mix().sz_name, reg_props_post_mix().sz_name);
    assert_eq!(
        reg_props_pre_mix().sz_copyright,
        reg_props_post_mix().sz_copyright
    );
    assert_ne!(reg_props_pre_mix().clsid, reg_props_post_mix().clsid);
}

#[test]
fn props_for_clsid_known() {
    assert!(props_for_clsid(&clsid_pre_mix()).is_some());
    assert!(props_for_clsid(&clsid_post_mix()).is_some());
}

#[test]
fn props_for_clsid_unknown() {
    let unknown = GUID::zeroed();
    assert!(props_for_clsid(&unknown).is_none());
}

#[test]
fn props_for_clsid_returns_correct_entry() {
    let pre = props_for_clsid(&clsid_pre_mix()).unwrap();
    assert_eq!(pre.clsid, clsid_pre_mix());

    let post = props_for_clsid(&clsid_post_mix()).unwrap();
    assert_eq!(post.clsid, clsid_post_mix());
}

#[test]
fn is_vxapo_clsid_positive() {
    assert!(is_vxapo_clsid(&clsid_pre_mix()));
    assert!(is_vxapo_clsid(&clsid_post_mix()));
}

#[test]
fn is_vxapo_clsid_negative() {
    assert!(!is_vxapo_clsid(&GUID::zeroed()));
}

#[test]
fn supported_clsids_count() {
    assert_eq!(supported_clsids().len(), 2);
}

#[test]
fn max_instances_is_1() {
    assert_eq!(reg_props_pre_mix().max_instances, 1);
}

#[test]
fn audio_flow_is_render() {
    assert_eq!(reg_props_pre_mix().audio_flow_type, AudioFlowType::Render);
}

#[test]
fn version_numbers() {
    assert_eq!(reg_props_pre_mix().major_version, 1);
    assert_eq!(reg_props_pre_mix().minor_version, 0);
}

/// A text too long for the field is cut so that the field still ends in a zero; a
/// character outside the basic plane takes two units.
#[test]
fn wide_field_is_cut_and_ended() {
    let long = "a".repeat(300);
    let field = str_to_u16_256(&long);
    assert_eq!(field[254], 'a' as u16);
    assert_eq!(field[255], 0);
    let wide = str_to_u16_256("\u{1F50A}x");
    assert_eq!(&wide[..4], &[0xD83D, 0xDD0A, 'x' as u16, 0]);
}
