use vxapo_driver::guid::guid_to_string;
use vxapo_driver::install::device::sysfx::{
    changes_to_backups, decode_backups, encode_backups, is_ms_mode_clsid, is_ms_stream_clsid,
    is_vxapo_clsid, msfx_heal_action, normalize_device_id, HealAction, SysFxBackup, SysFxChange,
    DEVICE_CLASSES_ROOT, KS_RENDER_CLASS, MS_CAPX_MODE_CLSID, MS_CAPX_STREAM_CLSID,
    PKEY_FX_MODE_EFFECT_CLSID, PKEY_FX_STREAM_EFFECT_CLSID,
};
use vxapo_driver::object::vx_reg_props::{clsid_post_mix, clsid_pre_mix};

#[test]
fn normalize_device_id_drops_prefix_and_converts_separators() {
    assert_eq!(
        normalize_device_id("{1}.USB\\VID_2D99&PID_A037&MI_00\\6&20BE7186&2&0000"),
        "usb#vid_2d99&pid_a037&mi_00#6&20be7186&2&0000"
    );
}

#[test]
fn normalize_device_id_without_prefix() {
    assert_eq!(
        normalize_device_id("USB\\VID_1234&PID_5678\\1&0"),
        "usb#vid_1234&pid_5678#1&0"
    );
}

#[test]
fn fast_path_candidate_matches_known_instance_name() {
    let normalized =
        normalize_device_id("{1}.USB\\VID_2D99&PID_A037&MI_00\\6&20BE7186&2&0000");
    let candidate = format!(
        "{DEVICE_CLASSES_ROOT}\\{KS_RENDER_CLASS}\\##?#{normalized}#{KS_RENDER_CLASS}"
    );
    let known = r"SYSTEM\CurrentControlSet\Control\DeviceClasses\{65E8773E-8F56-11D0-A3B9-00A0C9223196}\##?#USB#VID_2D99&PID_A037&MI_00#6&20BE7186&2&0000#{65e8773e-8f56-11d0-a3b9-00a0c9223196}";
    assert!(
        candidate.eq_ignore_ascii_case(known),
        "candidate={candidate}\nknown={known}"
    );
}

#[test]
fn ms_clsid_matchers_case_insensitive() {
    assert!(is_ms_stream_clsid("{c9453e73-8c5c-4463-9984-af8bab2f5447}"));
    assert!(is_ms_mode_clsid("{13AB3EBD-137E-4903-9D89-60BE8277FD17}"));
    assert!(!is_ms_stream_clsid("{00000000-0000-0000-0000-000000000000}"));
}

#[test]
fn vxapo_clsid_matcher_accepts_both_clsids() {
    assert!(is_vxapo_clsid(&guid_to_string(&clsid_pre_mix())));
    assert!(is_vxapo_clsid(&guid_to_string(&clsid_post_mix())));
    assert!(!is_vxapo_clsid("{C9453E73-8C5C-4463-9984-AF8BAB2F5447}"));
}

#[test]
fn msfx_heal_action_replaces_only_ms_capx() {
    let ms_stream = Some(MS_CAPX_STREAM_CLSID);
    let ms_mode = Some(MS_CAPX_MODE_CLSID);
    let vx_str = guid_to_string(&clsid_pre_mix());
    let vx = Some(vx_str.as_str());
    let third_party = Some("{6861CFDC-0461-49D5-A8DF-BE5ACD02692F}");

    assert_eq!(
        msfx_heal_action(ms_stream, ms_mode, true),
        HealAction::ReplaceStreamDeleteMode
    );
    assert_eq!(
        msfx_heal_action(ms_stream, None, false),
        HealAction::ReplaceStreamDeleteMode
    );
    assert_eq!(
        msfx_heal_action(vx, ms_mode, true),
        HealAction::DeleteModeOnly
    );
    assert_eq!(
        msfx_heal_action(None, ms_mode, false),
        HealAction::DeleteModeOnly
    );
    assert_eq!(
        msfx_heal_action(third_party, third_party, true),
        HealAction::Noop
    );
    assert_eq!(msfx_heal_action(None, None, true), HealAction::Noop);
}

#[test]
fn changes_to_backups_groups_by_path() {
    let path = r"SYSTEM\X\MSFX\0".to_string();
    let changes = vec![
        SysFxChange {
            key_path: path.clone(),
            value_name: PKEY_FX_STREAM_EFFECT_CLSID.to_string(),
            original: Some(MS_CAPX_STREAM_CLSID.to_string()),
            target: Some(guid_to_string(&clsid_pre_mix())),
        },
        SysFxChange {
            key_path: path.clone(),
            value_name: PKEY_FX_MODE_EFFECT_CLSID.to_string(),
            original: Some(MS_CAPX_MODE_CLSID.to_string()),
            target: None,
        },
    ];
    let backups = changes_to_backups(&changes);
    assert_eq!(backups.len(), 1);
    assert_eq!(backups[0].stream.as_deref(), Some(MS_CAPX_STREAM_CLSID));
    assert_eq!(backups[0].mode.as_deref(), Some(MS_CAPX_MODE_CLSID));
}

#[test]
fn backup_roundtrip() {
    let backups = vec![SysFxBackup {
        key_path: r"SYSTEM\A\MSFX\0".to_string(),
        stream: Some(MS_CAPX_STREAM_CLSID.to_string()),
        mode: None,
    }];
    let encoded = encode_backups(&backups);
    let decoded = decode_backups(&encoded);
    assert_eq!(decoded, backups);
}

#[test]
fn backup_decode_handles_missing_mode() {
    let decoded = decode_backups(&[
        r"SYSTEM\A\MSFX\1|{C9453E73-8C5C-4463-9984-AF8BAB2F5447}|-".to_string(),
    ]);
    assert_eq!(decoded.len(), 1);
    assert_eq!(decoded[0].stream.as_deref(), Some(MS_CAPX_STREAM_CLSID));
    assert_eq!(decoded[0].mode, None);
}

#[test]
fn encode_uses_dash_for_none() {
    let backups = vec![SysFxBackup {
        key_path: "K".to_string(),
        stream: None,
        mode: None,
    }];
    assert_eq!(encode_backups(&backups), vec!["K|-|-"]);
}
