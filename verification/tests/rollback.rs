use vxapo_driver::guid::{guid_to_string, GUID};
use vxapo_driver::installation::rollback::{
    backup_fx_properties, sanitize_filename, RollbackAction, RollbackNote, Transaction,
};
use vxapo_driver::registry::{Hkey, RegKey, RegValue, Registry};

#[test]
fn sanitize_filename_basic() {
    assert_eq!(sanitize_filename("Speakers"), "Speakers");
    assert_eq!(sanitize_filename("Realtek HD Audio"), "Realtek HD Audio");
}

#[test]
fn sanitize_filename_special_chars() {
    assert_eq!(
        sanitize_filename(r"Headphones (USB\VID_1234)"),
        "Headphones (USB_VID_1234)"
    );
    assert_eq!(
        sanitize_filename(r"C:\Windows\System32"),
        "C__Windows_System32"
    );
}

#[test]
fn sanitize_filename_all_special() {
    assert_eq!(
        sanitize_filename("\\/:*?\"<>|"),
        "_________"
    );
}

#[test]
fn transaction_new_is_empty() {
    let tx = Transaction::new();
    assert_eq!(tx.action_count(), 0);
    assert!(!tx.is_committed());
}

#[test]
fn transaction_record() {
    let mut tx = Transaction::new();
    tx.record(RollbackAction::DeleteKey("test".to_owned()));
    tx.record(RollbackAction::DeleteKey("test2".to_owned()));
    assert_eq!(tx.action_count(), 2);
}

#[test]
fn transaction_commit_prevents_rollback() {
    let mut tx = Transaction::new();
    tx.record(RollbackAction::DeleteKey("test".to_owned()));
    tx.commit();
    assert!(tx.is_committed());
    let mut registry = Registry::new(Vec::new());
    registry.create_key(Hkey::LocalMachine, "test");
    tx.rollback(&mut registry);
    assert!(registry.holds_key(Hkey::LocalMachine, "test"));
    assert!(tx.is_committed());
}

#[test]
fn transaction_drop_triggers_rollback() {
    let mut registry = Registry::new(Vec::new());
    let mut tx = Transaction::new();
    tx.record(RollbackAction::DeleteKey(
        r"SOFTWARE\VxAPO_Nonexistent_Test".to_owned(),
    ));
    tx.rollback(&mut registry);
    assert_eq!(tx.action_count(), 0);
}

#[test]
fn backup_fx_properties_sanitizes_names() {
    let safe = sanitize_filename("Speakers (Realtek)");
    assert!(safe.contains('('), "parentheses are valid in filenames");
    assert!(safe.contains(')'));
    assert!(!safe.contains('"'));
    assert!(!safe.contains('\\'));
}

#[test]
fn rollback_restore_value() {
    let test_path = "SOFTWARE\\VxAPO_Rollback_Restore".to_string();
    let root = Hkey::CurrentUser;

    let mut registry = Registry::new(Vec::new());
    registry.create_key(root, &test_path);
    registry.set_value(root, &test_path, "TestValue", RegValue::Binary(vec![1u8, 2, 3]));
    registry.set_value(root, &test_path, "TestValue", RegValue::Binary(vec![10u8, 20, 30]));

    {
        let mut tx = Transaction::new();
        tx.record(RollbackAction::RestoreValue {
            root,
            key: test_path.clone(),
            name: "TestValue".to_string(),
            backup: vec![1u8, 2, 3],
        });
        tx.rollback(&mut registry);
    }

    let key = RegKey::open(&registry, root, &test_path).unwrap();
    let restored = key.read_value("TestValue").unwrap();
    assert_eq!(*restored, RegValue::Binary(vec![1u8, 2, 3]));
}

#[test]
fn rollback_unregister_apo_logs_warning() {
    let bogus_guid = GUID::zeroed();
    let mut registry = Registry::new(Vec::new());
    let mut tx = Transaction::new();
    tx.record(RollbackAction::UnregisterApo(bogus_guid));
    let notes = tx.rollback(&mut registry);
    assert_eq!(notes, vec![RollbackNote::StillRegistered(guid_to_string(&bogus_guid))]);
    assert!(registry.journal.is_empty());
}

#[test]
fn backup_file_is_named_after_the_device() {
    assert_eq!(
        backup_fx_properties("Speakers: A", "USB/2", r"C:\backups"),
        r"C:\backups\backup_Speakers_ A_USB_2.reg"
    );
}

/// What was done last is undone first.
#[test]
fn rollback_goes_backwards() {
    let root = Hkey::CurrentUser;
    let mut registry = Registry::new(Vec::new());
    registry.create_key(root, "K");
    registry.set_value(root, "K", "v", RegValue::Binary(vec![3u8]));
    let mut tx = Transaction::new();
    for b in [1u8, 2] {
        tx.record(RollbackAction::RestoreValue {
            root,
            key: "K".to_string(),
            name: "v".to_string(),
            backup: vec![b],
        });
    }
    tx.rollback(&mut registry);
    assert_eq!(registry.get(root, "K", "v"), Some(&RegValue::Binary(vec![1u8])));
}
