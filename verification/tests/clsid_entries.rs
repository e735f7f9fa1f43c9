use vxapo_driver::guid::format_guid;
use vxapo_driver::host::installation::clsid_entries::{
    all_entries, registration_order, unregistration_order, ClsidEntry,
};
use vxapo_driver::object::vx_reg_props::{clsid_post_mix, clsid_pre_mix};

#[test]
fn format_guid_bytes_length() {
    let s = format_guid(&clsid_pre_mix());
    assert_eq!(s.len(), 38);
    assert!(s.starts_with('{'));
    assert!(s.ends_with('}'));
}

#[test]
fn format_guid_bytes_separators() {
    let s = format_guid(&clsid_pre_mix());
    assert_eq!(s.as_bytes()[9], b'-');
    assert_eq!(s.as_bytes()[14], b'-');
    assert_eq!(s.as_bytes()[19], b'-');
    assert_eq!(s.as_bytes()[24], b'-');
}

#[test]
fn format_guid_bytes_all_ascii_hex() {
    let s = format_guid(&clsid_pre_mix());
    for (i, &c) in s.as_bytes().iter().enumerate() {
        if i == 0 || i == 37 || [9, 14, 19, 24].contains(&i) {
            continue;
        }
        assert!(
            (b'0'..=b'9').contains(&c) || (b'A'..=b'F').contains(&c),
            "non-hex char at position {i}: {c}"
        );
    }
}

#[test]
fn pre_mix_entry_paths() {
    let entry = ClsidEntry::new(clsid_pre_mix());
    let clsid_str = entry.clsid_str.clone();
    assert!(entry.clsid_key_path().starts_with("CLSID\\"));
    assert!(entry.clsid_key_path().ends_with(&clsid_str));
    assert!(entry.inproc_server_path().contains("InprocServer32"));
}

#[test]
fn post_mix_entry_paths() {
    let entry = ClsidEntry::new(clsid_post_mix());
    assert!(entry.inproc_server_path().contains("InprocServer32"));
    assert!(entry.inproc_server_path().contains("CLSID"));
}

#[test]
fn registration_entries_contain_dll_path() {
    let entry = ClsidEntry::new(clsid_pre_mix());
    let entries = entry.registration_entries(r"C:\Windows\System32\vxapo.dll");
    assert!(!entries.is_empty());
    assert_eq!(entries[0].2, r"C:\Windows\System32\vxapo.dll");
}

#[test]
fn registration_entries_contain_threading_model() {
    let entry = ClsidEntry::new(clsid_pre_mix());
    let entries = entry.registration_entries("test.dll");
    let tm = entries.iter().find(|(name, _, _)| *name == "ThreadingModel");
    assert!(tm.is_some());
    assert_eq!(tm.unwrap().2, "Both");
}

#[test]
fn registration_order_is_postmix_first() {
    let order = registration_order();
    assert_eq!(order.len(), 2);
    assert_eq!(order[0].clsid, clsid_post_mix());
    assert_eq!(order[1].clsid, clsid_pre_mix());
}

#[test]
fn unregistration_order_is_premix_first() {
    let order = unregistration_order();
    assert_eq!(order.len(), 2);
    assert_eq!(order[0].clsid, clsid_pre_mix());
    assert_eq!(order[1].clsid, clsid_post_mix());
}

#[test]
fn all_entries_count() {
    assert_eq!(all_entries().len(), 2);
}

#[test]
fn clsid_strings_are_distinct() {
    let entries = all_entries();
    assert_ne!(entries[0].clsid_str, entries[1].clsid_str);
}

#[test]
fn inproc_server_path_ends_with_subkey() {
    let entry = ClsidEntry::new(clsid_pre_mix());
    assert!(entry.inproc_server_path().ends_with("InprocServer32"));
}

#[test]
fn clsid_key_path_is_root_plus_guid() {
    let entry = ClsidEntry::new(clsid_pre_mix());
    let path = entry.clsid_key_path();
    let expected = format!("CLSID\\{}", entry.clsid_str);
    assert_eq!(path, expected);
}
