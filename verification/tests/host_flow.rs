use vxapo_driver::error::VxApoError;
use vxapo_driver::guid::{guid_to_bytes, guid_to_string, GUID};
use vxapo_driver::host::device::info::{
    get_post_mix_apo_guid, get_pre_mix_apo_guid, has_fx_properties, query_device_info,
};
use vxapo_driver::host::installation::install::{
    find_endpoint_path, install_endpoint, read_slot_value_safe, uninstall_endpoint, InstallConfig,
};
use vxapo_driver::install::device::info::{CAPTURE_PATH, RENDER_PATH};
use vxapo_driver::install::device::slots::{ApoSlot, InstallMode, SlotValue};
use vxapo_driver::installation::rollback::Transaction;
use vxapo_driver::object::vx_reg_props::{clsid_post_mix, clsid_pre_mix};
use vxapo_driver::registry::{Hkey, RegKey, RegValue, Registry};

const ROOT: Hkey = Hkey::LocalMachine;
const GUID_A: &str = "{11111111-2222-3333-4444-555555555555}";

fn other() -> GUID {
    GUID { data1: 0xDEADBEEF, data2: 1, data3: 2, data4: [3; 8] }
}

fn place() -> String {
    format!("{RENDER_PATH}\\{GUID_A}")
}

fn fx() -> String {
    format!("{}\\FxProperties", place())
}

fn machine() -> Registry {
    let mut r = Registry::new(Vec::new());
    r.create_key(ROOT, &place());
    Registry::new(r.keys)
}

fn install(r: &mut Registry) -> (Transaction, Option<String>) {
    let mut tx = Transaction::new();
    let config = InstallConfig::default_config();
    let file = install_endpoint(r, &mut tx, GUID_A, "Speakers", "Line", &config).unwrap();
    (tx, file)
}

#[test]
fn endpoints_are_found_in_both_directions() {
    let mut r = machine();
    assert_eq!(find_endpoint_path(&r, GUID_A).unwrap(), (place(), "Render"));
    r.create_key(ROOT, &format!("{CAPTURE_PATH}\\{{0}}"));
    assert_eq!(find_endpoint_path(&r, "{0}").unwrap().1, "Capture");
}

#[test]
fn an_installation_fills_its_slots() {
    let mut r = machine();
    let (_, file) = install(&mut r);
    assert_eq!(file, None);
    assert_eq!(
        r.get(ROOT, &fx(), &ApoSlot::Sfx.value_name()),
        Some(&RegValue::Binary(guid_to_bytes(clsid_pre_mix()).to_vec()))
    );
    assert_eq!(
        read_slot_value_safe(&r, &fx(), ApoSlot::Efx),
        SlotValue::Guid(clsid_post_mix())
    );
    let key = RegKey::open(&r, ROOT, &place()).unwrap();
    assert!(has_fx_properties(&key));
    let info = query_device_info(&key).unwrap().unwrap();
    assert!(info.is_installed());
    assert_eq!(info.install_mode, InstallMode::SfxEfx);
}

#[test]
fn an_installation_is_removed() {
    let mut r = machine();
    install(&mut r);
    uninstall_endpoint(&mut r, GUID_A).unwrap();
    for slot in ApoSlot::ALL {
        assert!(read_slot_value_safe(&r, &fx(), slot).is_empty());
    }
    let key = RegKey::open(&r, ROOT, &place()).unwrap();
    assert!(!query_device_info(&key).unwrap().unwrap().is_installed());
}

#[test]
fn an_installation_is_rolled_back() {
    let mut r = machine();
    r.create_key(ROOT, &fx());
    let bytes = guid_to_bytes(other()).to_vec();
    r.set_value(ROOT, &fx(), &ApoSlot::Sfx.value_name(), RegValue::Binary(bytes.clone()));
    r.set_sz(ROOT, &fx(), "version", "1");
    let (mut tx, file) = install(&mut r);
    assert!(file.unwrap().ends_with("backup_Speakers_Line.reg"));
    tx.rollback(&mut r);
    assert_eq!(
        r.get(ROOT, &fx(), &ApoSlot::Sfx.value_name()),
        Some(&RegValue::Binary(bytes))
    );
}

/// Effect properties that were there stay, with every value that they had.
#[test]
fn rolling_back_spares_what_was_there() {
    let mut r = machine();
    r.create_key(ROOT, &fx());
    r.set_sz(ROOT, &fx(), "other", "kept");
    let bytes = RegValue::Binary(guid_to_bytes(other()).to_vec());
    r.set_value(ROOT, &fx(), &ApoSlot::Lfx.value_name(), bytes.clone());
    r.set_value(ROOT, &fx(), "DisableEnhancements", RegValue::Dword(1));
    let count = r.values(ROOT, &fx()).unwrap().len();
    let (mut tx, file) = install(&mut r);
    assert!(file.is_some());
    assert_eq!(r.get(ROOT, &fx(), &ApoSlot::Lfx.value_name()), None);
    tx.rollback(&mut r);
    assert_eq!(r.values(ROOT, &fx()).unwrap().len(), count);
    assert_eq!(r.get_sz(ROOT, &fx(), "other").as_deref(), Some("kept"));
    assert_eq!(r.get(ROOT, &fx(), &ApoSlot::Lfx.value_name()), Some(&bytes));
    assert_eq!(r.get(ROOT, &fx(), "DisableEnhancements"), Some(&RegValue::Dword(1)));
    assert_eq!(r.keys.len(), 2);
}

#[test]
fn rolling_back_deletes_keys_that_were_made() {
    let mut r = machine();
    let before = r.keys.clone();
    let (mut tx, _) = install(&mut r);
    assert!(r.holds_key(ROOT, &fx()));
    tx.rollback(&mut r);
    assert_eq!(r.keys, before);
}

#[test]
fn a_slot_that_cannot_be_read_counts_as_no_key() {
    let mut r = machine();
    assert_eq!(read_slot_value_safe(&r, &fx(), ApoSlot::Sfx), SlotValue::NoKey);
    r.create_key(ROOT, &fx());
    assert_eq!(read_slot_value_safe(&r, &fx(), ApoSlot::Sfx), SlotValue::NoKey);
    r.set_sz(ROOT, &fx(), &ApoSlot::Sfx.value_name(), &guid_to_string(&other()));
    assert_eq!(read_slot_value_safe(&r, &fx(), ApoSlot::Sfx), SlotValue::NoKey);
    r.set_value(ROOT, &fx(), &ApoSlot::Sfx.value_name(), RegValue::Binary(vec![1, 2]));
    assert_eq!(read_slot_value_safe(&r, &fx(), ApoSlot::Sfx), SlotValue::NoValue);
}

#[test]
fn an_unknown_endpoint_is_reported() {
    let mut r = Registry::new(Vec::new());
    let mut tx = Transaction::new();
    let config = InstallConfig::default_config();
    let expected = VxApoError::DeviceNotFound(GUID_A.to_string());
    assert_eq!(
        install_endpoint(&mut r, &mut tx, GUID_A, "a", "b", &config).unwrap_err(),
        expected
    );
    assert_eq!(uninstall_endpoint(&mut r, GUID_A).unwrap_err(), expected);
    assert_eq!(expected.message().contains(GUID_A), true);
    assert!(r.journal.is_empty());
}

#[test]
fn displaced_objects_are_read() {
    let mut r = machine();
    r.create_key(ROOT, &fx());
    r.set_sz(ROOT, &fx(), &ApoSlot::Sfx.value_name(), &guid_to_string(&other()));
    let key = RegKey::open(&r, ROOT, &place()).unwrap();
    let pre = get_pre_mix_apo_guid(&key, InstallMode::SfxEfx).unwrap();
    let post = get_post_mix_apo_guid(&key, InstallMode::SfxEfx).unwrap();
    assert_eq!(format!("{pre:?}").contains("DEADBEEF"), true);
    assert_eq!(format!("{post:?}").contains("DEADBEEF"), false);
}
