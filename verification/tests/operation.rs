use vxapo_driver::guid::{guid_to_string, parse_guid_string, GUID};
use vxapo_driver::install::device::slots::{ApoSlot, InstallMode};
use vxapo_driver::install::selector::operation::helpers::clears_slot;
use vxapo_driver::install::selector::operation::{InstallConfig, RollbackAction, Transaction};
use vxapo_driver::registry::{Hkey, RegKey, RegValue, Registry};

const TEST_ROOT: &str = r"SOFTWARE\VxAPO_Test_Tx_Rollback";

#[test]
fn tests_default_config_values() {
    let c = InstallConfig::default_config();
    assert!(c.install_premix);
    assert!(c.install_postmix);
    assert_eq!(c.install_mode, InstallMode::SfxEfx);
    assert!(!c.use_original_apo_premix);
    assert!(!c.use_original_apo_postmix);
    assert!(c.allow_silent_buffer);
    assert!(!c.auto_adjust);
}

#[test]
fn tests_guid_to_string_zeroed() {
    assert_eq!(
        guid_to_string(&GUID::zeroed()),
        "{00000000-0000-0000-0000-000000000000}"
    );
}

#[test]
fn tests_guid_to_string_max_values() {
    let g = GUID {
        data1: 0xFFFFFFFF,
        data2: 0xFFFF,
        data3: 0xFFFF,
        data4: [0xFF; 8],
    };
    assert_eq!(guid_to_string(&g), "{FFFFFFFF-FFFF-FFFF-FFFF-FFFFFFFFFFFF}");
}

#[test]
fn read_slot_value_parses_eapo_reg_sz_guid() {
    let s = "{EACD2258-FCAC-4FF4-B36D-419E924A6D79}";
    let guid = parse_guid_string(s).expect("the identifier is well formed");
    assert_eq!(guid.data1, 0xEACD_2258);
    assert_eq!(guid.data2, 0xFCAC);
    assert_eq!(guid.data3, 0x4FF4);
    assert_eq!(guid.data4, [0xB3, 0x6D, 0x41, 0x9E, 0x92, 0x4A, 0x6D, 0x79]);
}

#[test]
fn delete_other_mode_slots_keep_semantics() {
    for mode in [InstallMode::SfxEfx, InstallMode::SfxMfx, InstallMode::LfxGfx] {
        let pre = mode.premix_slot();
        let post = mode.postmix_slot();
        for slot in ApoSlot::ALL {
            let is_target = slot == pre || slot == post;
            let keep = !is_target && match mode {
                InstallMode::SfxEfx => slot == ApoSlot::Mfx,
                InstallMode::SfxMfx => slot == ApoSlot::Efx,
                InstallMode::LfxGfx => false,
            };
            assert_eq!(clears_slot(mode, slot), !is_target && !keep);
            if is_target {
                assert!(!keep, "{mode:?} target slot should not be in keep set");
            }
        }
    }
    let mk_keep = |mode: InstallMode, slot: ApoSlot| {
        mode.premix_slot() != slot
            && mode.postmix_slot() != slot
            && match mode {
                InstallMode::SfxEfx => slot == ApoSlot::Mfx,
                InstallMode::SfxMfx => slot == ApoSlot::Efx,
                InstallMode::LfxGfx => false,
            }
    };
    assert!(mk_keep(InstallMode::SfxEfx, ApoSlot::Mfx));
    assert!(!mk_keep(InstallMode::SfxEfx, ApoSlot::Gfx));
    assert!(mk_keep(InstallMode::SfxMfx, ApoSlot::Efx));
    assert!(!mk_keep(InstallMode::SfxMfx, ApoSlot::Gfx));
    assert!(!mk_keep(InstallMode::LfxGfx, ApoSlot::Efx));
}

#[test]
fn tests_config_custom_values() {
    let c = InstallConfig {
        install_premix: false,
        install_postmix: true,
        install_mode: InstallMode::LfxGfx,
        use_original_apo_premix: true,
        use_original_apo_postmix: false,
        allow_silent_buffer: false,
        auto_adjust: true,
    };
    assert!(!c.install_premix);
    assert!(c.install_postmix);
    assert_eq!(c.install_mode, InstallMode::LfxGfx);
    assert!(c.use_original_apo_premix);
    assert!(!c.use_original_apo_postmix);
    assert!(!c.allow_silent_buffer);
    assert!(c.auto_adjust);
}

#[test]
fn transaction_rollback_deletes_recorded_key() {
    let mut registry = Registry::new(Vec::new());
    registry.create_key(Hkey::CurrentUser, TEST_ROOT);
    registry.set_value(Hkey::CurrentUser, TEST_ROOT, "Marker", RegValue::Dword(1));
    assert!(RegKey::open(&registry, Hkey::CurrentUser, TEST_ROOT).is_some());

    let mut tx = Transaction::new();
    tx.record(RollbackAction::DeleteKey {
        root: Hkey::CurrentUser,
        path: TEST_ROOT.to_string(),
    });
    tx.rollback(&mut registry);

    assert!(
        RegKey::open(&registry, Hkey::CurrentUser, TEST_ROOT).is_none(),
        "a key that was created is gone after the rollback"
    );
}
