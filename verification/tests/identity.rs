use vxapo_driver::install::device::identity::{
    identity_from_values, merge_endpoint_history, normalize_device_id, normalize_endpoint_guid,
    normalize_endpoint_history, read_stored_identity, write_identity_values, EndpointIdentity,
    VALUE_DEVICE_HARDWARE_IDS, VALUE_DEVICE_INSTANCE_ID, VALUE_DEVICE_PRODUCT_NAME,
    VALUE_ENDPOINT_HISTORY,
};
use vxapo_driver::registry::{Hkey, RegEntry, RegValue, Registry};

fn entry(name: &str, value: RegValue) -> RegEntry {
    RegEntry { name: name.to_string(), value }
}

#[test]
fn normalize_device_id_strips_prefixes_and_separators() {
    assert_eq!(
        normalize_device_id(r"{1}.USB\VID_2D99&PID_A037&MI_00\6&20be7186&2&0000"),
        r"USB\VID_2D99&PID_A037&MI_00\6&20BE7186&2&0000"
    );
    assert_eq!(
        normalize_device_id(r"\\?\usb#vid_3302&pid_39c3&mi_01#6&2cc8475c&0&0001"),
        r"USB\VID_3302&PID_39C3&MI_01\6&2CC8475C&0&0001"
    );
    assert_eq!(
        normalize_device_id(r"{2}.\\?\usb#vid_3302&pid_39c3&mi_01#6&2cc8475c&0&0001"),
        r"USB\VID_3302&PID_39C3&MI_01\6&2CC8475C&0&0001"
    );
    assert_eq!(normalize_device_id("  USB\\Class_01\\  "), r"USB\CLASS_01");
}

#[test]
fn normalize_endpoint_guid_accepts_history_entries() {
    let render = "{0.0.0.00000000}.{07BE3684-52E4-41E7-AEFC-FF8C42BCC1DD}";
    let capture = "{0.0.1.00000000}.{DDF937E0-2F72-47F7-B30C-6F25D776023D}";
    assert_eq!(
        normalize_endpoint_guid(render).as_deref(),
        Some("{07be3684-52e4-41e7-aefc-ff8c42bcc1dd}")
    );
    assert_eq!(
        normalize_endpoint_guid(capture).as_deref(),
        Some("{ddf937e0-2f72-47f7-b30c-6f25d776023d}")
    );
    assert_eq!(
        normalize_endpoint_guid("{07BE3684-52E4-41E7-AEFC-FF8C42BCC1DD}").as_deref(),
        Some("{07be3684-52e4-41e7-aefc-ff8c42bcc1dd}")
    );
}

#[test]
fn normalize_endpoint_guid_accepts_interface_path() {
    let path = r"\\?\SWD#MMDEVAPI#{0.0.0.00000000}.{0B633063-AF03-4F85-853B-CEF12885D4C8}#{e6327cad-dcec-4949-ae8a-991e976a79d2}";
    assert_eq!(
        normalize_endpoint_guid(path).as_deref(),
        Some("{e6327cad-dcec-4949-ae8a-991e976a79d2}")
    );
}

#[test]
fn normalize_endpoint_guid_rejects_non_guid() {
    assert!(normalize_endpoint_guid("{0.0.0.00000000}").is_none());
    assert!(normalize_endpoint_guid("扬声器").is_none());
    assert!(normalize_endpoint_guid("").is_none());
}

#[test]
fn normalize_endpoint_history_dedups_and_skips_garbage() {
    let raw = vec![
        "{0.0.0.00000000}.{07BE3684-52E4-41E7-AEFC-FF8C42BCC1DD}".to_string(),
        "{0.0.0.00000000}.{07be3684-52e4-41e7-aefc-ff8c42bcc1dd}".to_string(),
        "garbage".to_string(),
    ];
    assert_eq!(
        normalize_endpoint_history(&raw),
        vec!["{07be3684-52e4-41e7-aefc-ff8c42bcc1dd}".to_string()]
    );
}

#[test]
fn merge_endpoint_history_is_sorted_and_unique() {
    let merged = merge_endpoint_history(&[
        vec!["{0.0.0.00000000}.{BBBBBBBB-0000-0000-0000-000000000000}".to_string()],
        vec![
            "{AAAAAAAA-0000-0000-0000-000000000000}".to_string(),
            "{0.0.1.00000000}.{bbbbbbbb-0000-0000-0000-000000000000}".to_string(),
        ],
    ]);
    assert_eq!(
        merged,
        vec![
            "{aaaaaaaa-0000-0000-0000-000000000000}".to_string(),
            "{bbbbbbbb-0000-0000-0000-000000000000}".to_string(),
        ]
    );
}

#[test]
fn identity_from_values_reads_all_fields() {
    let mut values: Vec<RegEntry> = Vec::new();
    values.push(entry(
        VALUE_DEVICE_INSTANCE_ID,
        RegValue::Sz(r"{1}.USB\VID_2D99&PID_A037&MI_00\6&20be7186&2&0000".to_string()),
    ));
    values.push(entry(
        VALUE_DEVICE_HARDWARE_IDS,
        RegValue::MultiSz(vec![r"USB\VID_2D99&PID_A037&MI_00".to_string()]),
    ));
    values.push(entry(
        VALUE_DEVICE_PRODUCT_NAME,
        RegValue::Sz("EDIFIER M16+".to_string()),
    ));
    values.push(entry(
        VALUE_ENDPOINT_HISTORY,
        RegValue::MultiSz(vec![
            "{0.0.0.00000000}.{52237A1A-647C-4196-855F-E693A6504EE9}".to_string()
        ]),
    ));
    let identity = identity_from_values(&values);
    assert_eq!(
        identity.instance_id,
        r"USB\VID_2D99&PID_A037&MI_00\6&20BE7186&2&0000"
    );
    assert_eq!(identity.hardware_ids, vec![r"USB\VID_2D99&PID_A037&MI_00".to_string()]);
    assert_eq!(identity.product_key(), "edifier m16+");
    assert_eq!(
        identity.endpoint_history,
        vec!["{52237a1a-647c-4196-855f-e693a6504ee9}".to_string()]
    );
}

#[test]
fn identity_from_values_empty_map_is_empty() {
    assert!(identity_from_values(&[]).is_empty());
}

/// What is known is read back as it was written; what is not known stays.
#[test]
fn an_identity_reads_back_from_its_record() {
    let root = "SOFTWARE\\VxAPO\\Child APOs";
    let path = format!("{root}\\x");
    let mut r = Registry::new(Vec::new());
    r.create_key(Hkey::LocalMachine, &path);
    let mut id = EndpointIdentity {
        instance_id: r"USB\VID_1\2".to_string(),
        hardware_ids: vec![r"USB\VID_1".to_string()],
        product_name: "M16+".to_string(),
        interface_name: String::new(),
        endpoint_history: Vec::new(),
    };
    let history = vec![
        "{52237a1a-647c-4196-855f-e693a6504ee9}".to_string(),
        "{07be3684-52e4-41e7-aefc-000000000001}".to_string(),
    ];
    write_identity_values(&mut r, &path, &id, &history);
    id.endpoint_history = vec![history[1].clone(), history[0].clone()];
    assert_eq!(read_stored_identity(&r, "x", root), id);
    write_identity_values(&mut r, &path, &EndpointIdentity::default(), &[]);
    assert_eq!(read_stored_identity(&r, "x", root), id);
}
