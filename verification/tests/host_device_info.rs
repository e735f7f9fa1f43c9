use vxapo_driver::guid::GUID;
use vxapo_driver::host::device::info::{detect_install_mode, is_vxapo_slot, DeviceInfo};
use vxapo_driver::install::device::endpoint::{EndpointInfo, EndpointState, Flow};
use vxapo_driver::install::device::slots::{
    get_original_post_mix, get_original_pre_mix, ApoSlot, InstallMode, SlotValue, INSTALL_VERSION,
    INSTALL_VERSION_LEGACY,
};
use vxapo_driver::object::vx_reg_props::{clsid_post_mix, clsid_pre_mix};
use vxapo_driver::registry::{Hkey, RegKey, Registry};

fn empty_slots() -> [SlotValue; 5] {
    [SlotValue::NoKey; 5]
}

fn vxapo_pre_guid() -> GUID {
    clsid_pre_mix()
}

fn vxapo_post_guid() -> GUID {
    clsid_post_mix()
}

fn other_guid(n: u32) -> GUID {
    GUID {
        data1: 0xF000_0000 + n,
        data2: 0xE000 + n as u16,
        data3: 0xD000 + n as u16,
        data4: [0xA0, 0xB0, 0xC0, n as u8, 0, 0, 0, 0xFF],
    }
}

fn make_device_info(slots: [SlotValue; 5], mode: InstallMode, version: &str) -> DeviceInfo {
    DeviceInfo {
        endpoint: EndpointInfo {
            device_id: "test".to_string(),
            friendly_name: "Test".to_string(),
            state: EndpointState::Active,
            flow: Flow::Render,
            endpoint_guid: String::new(),
        },
        install_mode: mode,
        slots,
        format: None,
        installed_version: version.to_string(),
    }
}

#[test]
fn install_version_is_2() {
    assert_eq!(INSTALL_VERSION, "2");
}

#[test]
fn install_version_legacy_is_1() {
    assert_eq!(INSTALL_VERSION_LEGACY, "1");
}

#[test]
fn install_versions_distinct() {
    assert_ne!(INSTALL_VERSION, INSTALL_VERSION_LEGACY);
}

#[test]
fn vxapo_premix_slot_detected() {
    let mut slots = empty_slots();
    slots[ApoSlot::Sfx.index() as usize] = SlotValue::Guid(vxapo_pre_guid());
    assert!(is_vxapo_slot(&slots, ApoSlot::Sfx));
}

#[test]
fn vxapo_postmix_slot_detected() {
    let mut slots = empty_slots();
    slots[ApoSlot::Efx.index() as usize] = SlotValue::Guid(vxapo_post_guid());
    assert!(is_vxapo_slot(&slots, ApoSlot::Efx));
}

#[test]
fn other_guid_not_vxapo() {
    let mut slots = empty_slots();
    slots[ApoSlot::Sfx.index() as usize] = SlotValue::Guid(other_guid(1));
    assert!(!is_vxapo_slot(&slots, ApoSlot::Sfx));
}

#[test]
fn empty_slot_not_vxapo() {
    let slots = empty_slots();
    assert!(!is_vxapo_slot(&slots, ApoSlot::Sfx));
    assert!(!is_vxapo_slot(&slots, ApoSlot::Efx));
}

#[test]
fn detect_mode_default_when_all_empty() {
    let slots = empty_slots();
    assert_eq!(detect_install_mode(&slots), InstallMode::SfxEfx);
}

#[test]
fn detect_mode_lfxgfx_when_lfx_has_guid() {
    let mut slots = empty_slots();
    slots[ApoSlot::Lfx.index() as usize] = SlotValue::Guid(vxapo_pre_guid());
    assert_eq!(detect_install_mode(&slots), InstallMode::LfxGfx);
}

#[test]
fn detect_mode_sfxefx_when_sfx_has_guid() {
    let mut slots = empty_slots();
    slots[ApoSlot::Sfx.index() as usize] = SlotValue::Guid(vxapo_pre_guid());
    slots[ApoSlot::Efx.index() as usize] = SlotValue::Guid(vxapo_post_guid());
    assert_eq!(detect_install_mode(&slots), InstallMode::SfxEfx);
}

#[test]
fn detect_mode_sfxmfx_when_mfx_has_guid() {
    let mut slots = empty_slots();
    slots[ApoSlot::Sfx.index() as usize] = SlotValue::Guid(vxapo_pre_guid());
    slots[ApoSlot::Mfx.index() as usize] = SlotValue::Guid(vxapo_post_guid());
    assert_eq!(detect_install_mode(&slots), InstallMode::SfxMfx);
}

#[test]
fn detect_mode_sfxefx_when_sfx_only() {
    let mut slots = empty_slots();
    slots[ApoSlot::Sfx.index() as usize] = SlotValue::Guid(vxapo_pre_guid());
    assert_eq!(detect_install_mode(&slots), InstallMode::SfxEfx);
}

#[test]
fn detect_mode_prefers_sfx_over_lfx() {
    let mut slots = empty_slots();
    slots[ApoSlot::Sfx.index() as usize] = SlotValue::Guid(vxapo_pre_guid());
    slots[ApoSlot::Lfx.index() as usize] = SlotValue::Guid(other_guid(1));
    assert_eq!(detect_install_mode(&slots), InstallMode::SfxEfx);
}

#[test]
fn detect_mode_novalue_treated_as_empty() {
    let mut slots = empty_slots();
    slots[ApoSlot::Lfx.index() as usize] = SlotValue::NoValue;
    assert_eq!(detect_install_mode(&slots), InstallMode::SfxEfx);
}

#[test]
fn installed_when_premix_is_vxapo() {
    let mut slots = empty_slots();
    slots[ApoSlot::Sfx.index() as usize] = SlotValue::Guid(vxapo_pre_guid());
    let info = make_device_info(slots, InstallMode::SfxEfx, "2");
    assert!(info.is_installed());
}

#[test]
fn installed_when_postmix_is_vxapo() {
    let mut slots = empty_slots();
    slots[ApoSlot::Efx.index() as usize] = SlotValue::Guid(vxapo_post_guid());
    let info = make_device_info(slots, InstallMode::SfxEfx, "2");
    assert!(info.is_installed());
}

#[test]
fn installed_when_both_are_vxapo() {
    let mut slots = empty_slots();
    slots[ApoSlot::Sfx.index() as usize] = SlotValue::Guid(vxapo_pre_guid());
    slots[ApoSlot::Efx.index() as usize] = SlotValue::Guid(vxapo_post_guid());
    let info = make_device_info(slots, InstallMode::SfxEfx, "2");
    assert!(info.is_installed());
}

#[test]
fn not_installed_when_version_empty() {
    let mut slots = empty_slots();
    slots[ApoSlot::Sfx.index() as usize] = SlotValue::Guid(vxapo_pre_guid());
    let info = make_device_info(slots, InstallMode::SfxEfx, "");
    assert!(!info.is_installed());
}

#[test]
fn not_installed_when_no_vxapo_guid() {
    let mut slots = empty_slots();
    slots[ApoSlot::Sfx.index() as usize] = SlotValue::Guid(other_guid(1));
    let info = make_device_info(slots, InstallMode::SfxEfx, "2");
    assert!(!info.is_installed());
}

#[test]
fn not_installed_when_slots_empty() {
    let info = make_device_info(empty_slots(), InstallMode::SfxEfx, "");
    assert!(!info.is_installed());
}

#[test]
fn can_upgrade_from_v1() {
    let mut slots = empty_slots();
    slots[ApoSlot::Sfx.index() as usize] = SlotValue::Guid(vxapo_pre_guid());
    let info = make_device_info(slots, InstallMode::SfxEfx, "1");
    assert!(info.can_be_upgraded());
}

#[test]
fn can_upgrade_from_empty_version() {
    let mut slots = empty_slots();
    slots[ApoSlot::Sfx.index() as usize] = SlotValue::Guid(vxapo_pre_guid());
    let info = make_device_info(slots, InstallMode::SfxEfx, "");
    assert!(!info.can_be_upgraded());
}

#[test]
fn no_upgrade_when_current_version() {
    let mut slots = empty_slots();
    slots[ApoSlot::Sfx.index() as usize] = SlotValue::Guid(vxapo_pre_guid());
    let info = make_device_info(slots, InstallMode::SfxEfx, "2");
    assert!(!info.can_be_upgraded());
}

#[test]
fn no_upgrade_when_not_installed() {
    let info = make_device_info(empty_slots(), InstallMode::SfxEfx, "");
    assert!(!info.can_be_upgraded());
}

#[test]
fn lfxgfx_is_experimental() {
    let info = make_device_info(empty_slots(), InstallMode::LfxGfx, "");
    assert!(info.is_experimental());
}

#[test]
fn sfxefx_not_experimental() {
    let info = make_device_info(empty_slots(), InstallMode::SfxEfx, "");
    assert!(!info.is_experimental());
}

#[test]
fn sfxmfx_not_experimental() {
    let info = make_device_info(empty_slots(), InstallMode::SfxMfx, "");
    assert!(!info.is_experimental());
}

#[test]
fn has_changes_when_installed_non_default_mode() {
    let mut slots = empty_slots();
    slots[ApoSlot::Lfx.index() as usize] = SlotValue::Guid(vxapo_pre_guid());
    let info = make_device_info(slots, InstallMode::LfxGfx, "2");
    assert!(info.has_changes());
}

#[test]
fn no_changes_when_default_mode() {
    let mut slots = empty_slots();
    slots[ApoSlot::Sfx.index() as usize] = SlotValue::Guid(vxapo_pre_guid());
    let info = make_device_info(slots, InstallMode::SfxEfx, "2");
    assert!(!info.has_changes());
}

#[test]
fn no_changes_when_not_installed() {
    let info = make_device_info(empty_slots(), InstallMode::LfxGfx, "");
    assert!(!info.has_changes());
}

#[test]
fn has_fx_properties_nonexistent_key() {
    let registry = Registry::new(Vec::new());
    let result = RegKey::open(
        &registry,
        Hkey::CurrentUser,
        "SOFTWARE\\VxAPO_Test_NonExistent_FxProps_12345",
    );
    assert!(result.is_none());
}

#[test]
fn sfxefx_premix_and_postmix_are_different_slots() {
    let mode = InstallMode::SfxEfx;
    assert_ne!(mode.premix_slot(), mode.postmix_slot());
}

#[test]
fn lfxgfx_premix_and_postmix_are_different_slots() {
    let mode = InstallMode::LfxGfx;
    assert_ne!(mode.premix_slot(), mode.postmix_slot());
}

#[test]
fn sfxmfx_premix_and_postmix_are_different_slots() {
    let mode = InstallMode::SfxMfx;
    assert_ne!(mode.premix_slot(), mode.postmix_slot());
}

#[test]
fn device_info_debug() {
    let info = make_device_info(empty_slots(), InstallMode::SfxEfx, "2");
    let dbg = format!("{:?}", info);
    assert!(dbg.contains("install_mode"));
    assert!(dbg.contains("installed_version"));
}

#[test]
fn device_info_clone() {
    let info = make_device_info(empty_slots(), InstallMode::SfxEfx, "2");
    let cloned = info.clone();
    assert_eq!(info.install_mode, cloned.install_mode);
    assert_eq!(info.installed_version, cloned.installed_version);
}

#[test]
fn end_to_end_sfxefx_installed_vxapo() {
    let mut slots = empty_slots();
    slots[ApoSlot::Sfx.index() as usize] = SlotValue::Guid(vxapo_pre_guid());
    slots[ApoSlot::Efx.index() as usize] = SlotValue::Guid(vxapo_post_guid());

    let info = make_device_info(slots, InstallMode::SfxEfx, "2");

    assert!(info.is_installed());
    assert!(!info.can_be_upgraded());
    assert!(!info.is_experimental());
    assert!(!info.has_changes());
}

#[test]
fn end_to_end_lfxgfx_installed_legacy() {
    let mut slots = empty_slots();
    slots[ApoSlot::Lfx.index() as usize] = SlotValue::Guid(vxapo_pre_guid());
    slots[ApoSlot::Gfx.index() as usize] = SlotValue::Guid(vxapo_post_guid());

    let info = make_device_info(slots, InstallMode::LfxGfx, "1");

    assert!(info.is_installed());
    assert!(info.can_be_upgraded());
    assert!(info.is_experimental());
    assert!(info.has_changes());
}

#[test]
fn end_to_end_not_installed() {
    let mut slots = empty_slots();
    slots[ApoSlot::Sfx.index() as usize] = SlotValue::Guid(other_guid(1));
    slots[ApoSlot::Efx.index() as usize] = SlotValue::Guid(other_guid(2));

    let info = make_device_info(slots, InstallMode::SfxEfx, "");

    assert!(!info.is_installed());
    assert!(!info.can_be_upgraded());
    assert!(!info.has_changes());
}

#[test]
fn end_to_end_pre_mix_guid_fallback() {
    let mut slots = empty_slots();
    slots[ApoSlot::Sfx.index() as usize] = SlotValue::NoValue;
    slots[ApoSlot::Lfx.index() as usize] = SlotValue::Guid(other_guid(99));

    let pre = get_original_pre_mix(&slots, InstallMode::SfxEfx);
    assert!(!pre.is_empty(), "Should fall back to LFX");
    assert!(pre.contains("F0000063"), "Should contain fallback GUID data1");
}

#[test]
fn end_to_end_post_mix_guid_fallback() {
    let mut slots = empty_slots();
    slots[ApoSlot::Efx.index() as usize] = SlotValue::NoValue;
    slots[ApoSlot::Mfx.index() as usize] = SlotValue::Guid(other_guid(42));

    let post = get_original_post_mix(&slots, InstallMode::SfxEfx);
    assert!(!post.is_empty(), "Should fall back to MFX");
}

#[test]
fn end_to_end_all_postmix_empty_returns_empty() {
    let mut slots = empty_slots();
    slots[ApoSlot::Efx.index() as usize] = SlotValue::NoValue;
    slots[ApoSlot::Mfx.index() as usize] = SlotValue::NoValue;
    slots[ApoSlot::Gfx.index() as usize] = SlotValue::NoValue;

    let post = get_original_post_mix(&slots, InstallMode::SfxEfx);
    assert!(post.is_empty());
}

/// A later version is no reason for an upgrade, nor is one that is no number.
#[test]
fn later_versions_are_not_upgraded() {
    for version in ["3", "10", "beta"] {
        let mut slots = empty_slots();
        slots[ApoSlot::Sfx.index() as usize] = SlotValue::Guid(vxapo_pre_guid());
        let info = make_device_info(slots, InstallMode::SfxEfx, version);
        assert!(info.is_installed());
        assert!(!info.can_be_upgraded());
    }
}
