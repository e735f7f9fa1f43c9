use vxapo_driver::guid::{format_guid, guid_to_bytes, parse_guid_from_bytes, GUID};
use vxapo_driver::host::installation::install::{
    delete_other_mode_slots, ensure_fx_properties, find_endpoint_path, write_apo_slot,
    write_child_apo_config, write_default_processmode, InstallConfig,
};
use vxapo_driver::install::device::slots::{
    ApoSlot, InstallMode, FX_PROPERTIES_KEY, INSTALL_VERSION,
};
use vxapo_driver::install::selector::operation::helpers::default_processing_mode;
use vxapo_driver::installation::rollback::Transaction;
use vxapo_driver::object::vx_reg_props::clsid_pre_mix;
use vxapo_driver::registry::{Hkey, RegKey, RegValue, Registry};

#[test]
fn install_default_config_values() {
    let c = InstallConfig::default_config();
    assert!(c.install_premix);
    assert!(c.install_postmix);
    assert_eq!(c.install_mode, InstallMode::SfxEfx);
    assert!(!c.use_original_apo_premix);
    assert!(!c.use_original_apo_postmix);
    assert!(c.allow_silent_buffer);
}

#[test]
fn guid_bytes_roundtrip() {
    let g = GUID {
        data1: 0xC18E2F7E,
        data2: 0x933D,
        data3: 0x4965,
        data4: [0xB7, 0xD1, 0x1E, 0xEF, 0x22, 0x8D, 0x2A, 0xF3],
    };
    let bytes = guid_to_bytes(g);
    assert_eq!(bytes.len(), 16);
    let parsed = parse_guid_from_bytes(&bytes);
    assert_eq!(parsed.data1, g.data1);
    assert_eq!(parsed.data2, g.data2);
    assert_eq!(parsed.data3, g.data3);
    assert_eq!(parsed.data4, g.data4);
}

#[test]
fn guid_bytes_zeroed() {
    let g = GUID::zeroed();
    let bytes = guid_to_bytes(g);
    assert_eq!(bytes, [0u8; 16]);
}

#[test]
fn format_guid_zeroed() {
    assert_eq!(
        format_guid(&GUID::zeroed()),
        "{00000000-0000-0000-0000-000000000000}"
    );
}

#[test]
fn find_endpoint_nonexistent_returns_error() {
    let result = find_endpoint_path(&Registry::new(Vec::new()), "{00000000-0000-0000-0000-000000000000}");
    assert!(result.is_err());
}

const TEST_FX_PATH: &str = r"SOFTWARE\VxAPO_Test_Install";

fn test_registry() -> Registry {
    let mut registry = Registry::new(Vec::new());
    registry.create_key(Hkey::CurrentUser, TEST_FX_PATH);
    registry
}

fn value_exists(registry: &Registry, name: &str) -> bool {
    registry.get(Hkey::CurrentUser, TEST_FX_PATH, name).is_some()
}

#[test]
fn write_child_config_basic() {
    let mut registry = test_registry();
    let config = InstallConfig::default_config();

    write_child_apo_config(
        &mut registry,
        Hkey::CurrentUser,
        TEST_FX_PATH,
        &config,
        None,
        None,
    );

    let key = RegKey::open(&registry, Hkey::CurrentUser, TEST_FX_PATH).unwrap();
    let version = key.read_sz("version").unwrap();
    assert_eq!(version, INSTALL_VERSION);

    let allow = key.read_dword("allowSilentBuffer").unwrap();
    assert_eq!(allow, 1);
}

#[test]
fn write_child_config_with_original_apo() {
    let mut registry = test_registry();
    let config = InstallConfig::default_config();

    let original = GUID {
        data1: 0xDEADBEEF,
        data2: 0x1234,
        data3: 0x5678,
        data4: [0xAA, 0xBB, 0xCC, 0xDD, 0xEE, 0xFF, 0x00, 0x11],
    };

    write_child_apo_config(
        &mut registry,
        Hkey::CurrentUser,
        TEST_FX_PATH,
        &config,
        Some(original),
        None,
    );

    let key = RegKey::open(&registry, Hkey::CurrentUser, TEST_FX_PATH).unwrap();
    let child = match key.read_value("childGuid").unwrap() {
        RegValue::Sz(s) => s,
        other => panic!("expected Sz, got {:?}", other),
    };
    assert!(child.contains("DEADBEEF"), "childGuid should contain original GUID: {}", child);
}

#[test]
fn write_child_config_without_original_apo() {
    let mut registry = test_registry();
    let config = InstallConfig::default_config();

    write_child_apo_config(
        &mut registry,
        Hkey::CurrentUser,
        TEST_FX_PATH,
        &config,
        None,
        None,
    );

    assert!(!value_exists(&registry, "childGuid"));
}

#[test]
fn write_and_read_apo_slot() {
    let mut registry = test_registry();
    let guid = clsid_pre_mix();

    write_apo_slot(&mut registry, Hkey::CurrentUser, TEST_FX_PATH, ApoSlot::Sfx, guid);

    let key = RegKey::open(&registry, Hkey::CurrentUser, TEST_FX_PATH).unwrap();
    let raw = match key.read_value(&ApoSlot::Sfx.value_name()).unwrap() {
        RegValue::Binary(b) => b,
        other => panic!("expected Binary, got {:?}", other),
    };
    assert_eq!(raw.len(), 16);

    let parsed = parse_guid_from_bytes(&raw);
    assert_eq!(parsed.data1, guid.data1);
    assert_eq!(parsed.data2, guid.data2);
    assert_eq!(parsed.data3, guid.data3);
    assert_eq!(parsed.data4, guid.data4);
}

#[test]
fn write_default_processmode_value() {
    let mut registry = test_registry();
    write_default_processmode(&mut registry, Hkey::CurrentUser, TEST_FX_PATH);

    let key = RegKey::open(&registry, Hkey::CurrentUser, TEST_FX_PATH).unwrap();
    let pm = match key.read_value("KSDATAFORMAT_SUBTYPE_DEFAULT_PROCESSMODE").unwrap() {
        RegValue::Sz(s) => s,
        other => panic!("expected Sz, got {:?}", other),
    };
    assert_eq!(*pm, format_guid(&default_processing_mode()));
}

#[test]
fn delete_other_modes_removes_non_current() {
    let mut registry = test_registry();

    for slot in ApoSlot::ALL {
        let name = slot.value_name();
        registry.set_sz(
            Hkey::CurrentUser,
            TEST_FX_PATH,
            &name,
            &format!("test_{}", slot.index()),
        );
    }

    delete_other_mode_slots(&mut registry, Hkey::CurrentUser, TEST_FX_PATH, InstallMode::SfxEfx);

    assert!(value_exists(&registry, &ApoSlot::Sfx.value_name()), "SFX should exist");
    assert!(value_exists(&registry, &ApoSlot::Efx.value_name()), "EFX should exist");
    assert!(!value_exists(&registry, &ApoSlot::Lfx.value_name()), "LFX should be deleted");
    assert!(!value_exists(&registry, &ApoSlot::Gfx.value_name()), "GFX should be deleted");
    assert!(!value_exists(&registry, &ApoSlot::Mfx.value_name()), "MFX should be deleted");
}

#[test]
fn ensure_fx_properties_creates_new() {
    let mut registry = Registry::new(Vec::new());
    let mut tx = Transaction::new();
    let is_new = ensure_fx_properties(
        &mut registry,
        &format!("{}\\{}", TEST_FX_PATH, FX_PROPERTIES_KEY),
        &mut tx,
    );

    assert!(is_new, "should be new");
    tx.rollback(&mut registry);
}

#[test]
fn install_config_custom_values() {
    let c = InstallConfig {
        install_premix: false,
        install_postmix: true,
        install_mode: InstallMode::LfxGfx,
        use_original_apo_premix: true,
        use_original_apo_postmix: false,
        allow_silent_buffer: false,
    };
    assert!(!c.install_premix);
    assert!(c.install_postmix);
    assert_eq!(c.install_mode, InstallMode::LfxGfx);
    assert!(c.use_original_apo_premix);
    assert!(!c.use_original_apo_postmix);
    assert!(!c.allow_silent_buffer);
}

#[test]
fn end_to_end_write_and_cleanup() {
    let mut registry = test_registry();
    let config = InstallConfig::default_config();

    write_child_apo_config(
        &mut registry,
        Hkey::CurrentUser,
        TEST_FX_PATH,
        &config,
        None,
        None,
    );

    registry.set_sz(
        Hkey::CurrentUser,
        TEST_FX_PATH,
        &config.install_mode.premix_slot().value_name(),
        "vxapo_pre",
    );
    registry.set_sz(
        Hkey::CurrentUser,
        TEST_FX_PATH,
        &config.install_mode.postmix_slot().value_name(),
        "vxapo_post",
    );
    write_default_processmode(&mut registry, Hkey::CurrentUser, TEST_FX_PATH);

    assert!(value_exists(&registry, "version"));
    assert!(value_exists(&registry, &config.install_mode.premix_slot().value_name()));
    assert!(value_exists(&registry, &config.install_mode.postmix_slot().value_name()));

    for slot in ApoSlot::ALL {
        registry.delete_value(Hkey::CurrentUser, TEST_FX_PATH, &slot.value_name());
    }
    for name in &["childGuid", "allowSilentBuffer", "autoAdjust", "version"] {
        registry.delete_value(Hkey::CurrentUser, TEST_FX_PATH, name);
    }

    assert!(!value_exists(&registry, "version"));
}
