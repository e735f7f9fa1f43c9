use vxapo_driver::registry::{join_path, Hkey, KeyRecord, RegEntry, RegKey, RegOp, RegValue, Registry};

const ROOT: Hkey = Hkey::LocalMachine;

#[test]
fn names_are_told_apart_without_case() {
    let mut r = Registry::new(Vec::new());
    r.create_key(ROOT, "Software\\A");
    r.set_sz(ROOT, "SOFTWARE\\a", "Name", "x");
    assert_eq!(r.get_sz(ROOT, "software\\A", "NAME").as_deref(), Some("x"));
    assert!(!r.holds_key(Hkey::CurrentUser, "Software\\A"));
}

#[test]
fn a_value_written_is_read_back() {
    let mut r = Registry::new(Vec::new());
    r.create_key(ROOT, "A");
    r.set_value(ROOT, "A", "v", RegValue::Dword(7));
    r.set_value(ROOT, "A", "w", RegValue::MultiSz(vec!["x".to_string(), "y".to_string()]));
    let key = RegKey::open(&r, ROOT, "A").unwrap();
    assert_eq!(key.read_dword("v"), Some(7));
    assert_eq!(key.read_sz("v"), None);
    assert_eq!(key.read_multi_value("w"), Some(vec!["x".to_string(), "y".to_string()]));
    r.set_value(ROOT, "A", "v", RegValue::Dword(8));
    assert_eq!(r.get(ROOT, "A", "v"), Some(&RegValue::Dword(8)));
    r.delete_value(ROOT, "A", "v");
    assert_eq!(r.get(ROOT, "A", "v"), None);
    assert!(r.get(ROOT, "A", "w").is_some());
}

#[test]
fn a_tree_is_deleted_with_all_below_it() {
    let mut r = Registry::new(Vec::new());
    for path in ["A", "A\\B", "A\\B\\C", "AB"] {
        r.create_key(ROOT, path);
    }
    r.delete_tree(ROOT, "A\\b");
    assert!(r.holds_key(ROOT, "A"));
    assert!(!r.holds_key(ROOT, "A\\B"));
    assert!(!r.holds_key(ROOT, "A\\B\\C"));
    assert!(r.holds_key(ROOT, "AB"));
}

#[test]
fn the_keys_below_a_key_are_listed() {
    let mut r = Registry::new(Vec::new());
    for path in ["A", "A\\X", "A\\Y", "A\\Y\\Z", "B\\X"] {
        r.create_key(ROOT, path);
    }
    assert_eq!(r.child_names(ROOT, "a"), vec!["X".to_string(), "Y".to_string()]);
    let key = RegKey::open(&r, ROOT, "A").unwrap();
    assert_eq!(key.enum_sub_keys(), vec!["X".to_string(), "Y".to_string()]);
    assert!(key.open_sub_key("Y").is_some());
    assert!(key.open_sub_key("Q").is_none());
    assert_eq!(join_path("A", "Y"), "A\\Y");
}

#[test]
fn changes_are_journaled_in_order() {
    let entry = RegEntry { name: "n".to_string(), value: RegValue::Qword(1) };
    let mut r = Registry::new(vec![KeyRecord {
        root: ROOT,
        path: "A".to_string(),
        values: vec![entry.clone()],
    }]);
    assert_eq!(r.values(ROOT, "A"), Some(&[entry][..]));
    r.delete_value(ROOT, "A", "n");
    r.delete_tree(ROOT, "A");
    assert_eq!(
        r.journal,
        vec![
            RegOp::DeleteValue { root: ROOT, path: "A".to_string(), name: "n".to_string() },
            RegOp::DeleteTree { root: ROOT, path: "A".to_string() },
        ]
    );
    assert!(r.values(ROOT, "A").is_none());
}
