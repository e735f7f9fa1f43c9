use vxapo_driver::guid::GUID;
use vxapo_driver::install::device::endpoint::{EndpointInfo, EndpointState, Flow};
use vxapo_driver::install::device::info::{detect_install_mode, enumerate_devices, DeviceInfo};
use vxapo_driver::install::device::slots::{ApoSlot, InstallMode, SlotValue};
use vxapo_driver::object::vx_reg_props::{clsid_post_mix, clsid_pre_mix};
use vxapo_driver::registry::Registry;

fn empty_slots() -> [SlotValue; 5] {
    [SlotValue::NoKey; 5]
}

fn vxapo_pre_guid() -> GUID {
    clsid_pre_mix()
}

fn vxapo_post_guid() -> GUID {
    clsid_post_mix()
}

fn make_device_info(slots: [SlotValue; 5], mode: InstallMode, version: &str) -> DeviceInfo {
    DeviceInfo {
        endpoint: Some(EndpointInfo {
            device_id: "test".to_string(),
            friendly_name: "Test".to_string(),
            state: EndpointState::Active,
            flow: Flow::Render,
            endpoint_guid: String::new(),
        }),
        install_mode: mode,
        slots,
        format: None,
        installed_version: version.to_string(),
    }
}

#[test]
fn detect_mode_when_all_empty() {
    let slots = empty_slots();
    assert_eq!(detect_install_mode(&slots), InstallMode::SfxEfx);
}

#[test]
fn detect_mode_lfxgfx_when_lfx_gfx_pair() {
    let mut slots = empty_slots();
    slots[ApoSlot::Lfx.index() as usize] = SlotValue::Guid(vxapo_pre_guid());
    slots[ApoSlot::Gfx.index() as usize] = SlotValue::Guid(vxapo_post_guid());
    assert_eq!(detect_install_mode(&slots), InstallMode::LfxGfx);
}

#[test]
fn detect_mode_lfx_half_pair_falls_default() {
    let mut slots = empty_slots();
    slots[ApoSlot::Lfx.index() as usize] = SlotValue::Guid(vxapo_pre_guid());
    assert_eq!(detect_install_mode(&slots), InstallMode::SfxEfx);
}

#[test]
fn info_detect_mode_sfxefx_when_sfx_has_guid() {
    let mut slots = empty_slots();
    slots[ApoSlot::Sfx.index() as usize] = SlotValue::Guid(vxapo_pre_guid());
    slots[ApoSlot::Efx.index() as usize] = SlotValue::Guid(vxapo_post_guid());
    assert_eq!(detect_install_mode(&slots), InstallMode::SfxEfx);
}

#[test]
fn info_detect_mode_sfxmfx_when_mfx_has_guid() {
    let mut slots = empty_slots();
    slots[ApoSlot::Sfx.index() as usize] = SlotValue::Guid(vxapo_pre_guid());
    slots[ApoSlot::Mfx.index() as usize] = SlotValue::Guid(vxapo_post_guid());
    assert_eq!(detect_install_mode(&slots), InstallMode::SfxMfx);
}

#[test]
fn info_installed_when_premix_is_vxapo() {
    let mut slots = empty_slots();
    slots[ApoSlot::Sfx.index() as usize] = SlotValue::Guid(vxapo_pre_guid());
    let info = make_device_info(slots, InstallMode::SfxEfx, "2");
    assert!(info.is_installed());
}

#[test]
fn info_installed_when_postmix_is_vxapo() {
    let mut slots = empty_slots();
    slots[ApoSlot::Efx.index() as usize] = SlotValue::Guid(vxapo_post_guid());
    let info = make_device_info(slots, InstallMode::SfxEfx, "2");
    assert!(info.is_installed());
}

#[test]
fn info_not_installed_when_version_empty() {
    let mut slots = empty_slots();
    slots[ApoSlot::Sfx.index() as usize] = SlotValue::Guid(vxapo_pre_guid());
    let info = make_device_info(slots, InstallMode::SfxEfx, "");
    assert!(!info.is_installed());
}

#[test]
fn info_not_installed_when_no_vxapo_guid() {
    let mut slots = empty_slots();
    slots[ApoSlot::Sfx.index() as usize] = SlotValue::Guid(GUID::zeroed());
    let info = make_device_info(slots, InstallMode::SfxEfx, "2");
    assert!(!info.is_installed());
}

#[test]
fn info_can_upgrade_from_v1() {
    let mut slots = empty_slots();
    slots[ApoSlot::Sfx.index() as usize] = SlotValue::Guid(vxapo_pre_guid());
    let info = make_device_info(slots, InstallMode::SfxEfx, "1");
    assert!(info.can_be_upgraded());
    assert!(info.is_legacy());
}

#[test]
fn info_no_upgrade_when_current_version() {
    let mut slots = empty_slots();
    slots[ApoSlot::Sfx.index() as usize] = SlotValue::Guid(vxapo_pre_guid());
    let info = make_device_info(slots, InstallMode::SfxEfx, "2");
    assert!(!info.can_be_upgraded());
    assert!(!info.is_legacy());
}

#[test]
fn info_lfxgfx_is_experimental() {
    let info = make_device_info(empty_slots(), InstallMode::LfxGfx, "2");
    assert!(info.is_experimental());
}

#[test]
fn info_sfxefx_not_experimental() {
    let info = make_device_info(empty_slots(), InstallMode::SfxEfx, "2");
    assert!(!info.is_experimental());
}

#[test]
fn info_has_changes_when_installed_non_default_mode() {
    let mut slots = empty_slots();
    slots[ApoSlot::Lfx.index() as usize] = SlotValue::Guid(vxapo_pre_guid());
    let info = make_device_info(slots, InstallMode::LfxGfx, "2");
    assert!(info.has_changes());
}

#[test]
fn info_no_changes_when_default_mode() {
    let mut slots = empty_slots();
    slots[ApoSlot::Sfx.index() as usize] = SlotValue::Guid(vxapo_pre_guid());
    let info = make_device_info(slots, InstallMode::SfxEfx, "2");
    assert!(!info.has_changes());
}

#[test]
fn info_no_changes_when_not_installed() {
    let info = make_device_info(empty_slots(), InstallMode::LfxGfx, "");
    assert!(!info.has_changes());
}

#[test]
fn enumerate_devices_runs_without_error() {
    let registry = Registry::new(Vec::new());
    let _ = enumerate_devices(&registry);
}

/// Only a version below the current one can be upgraded, by its number.
#[test]
fn only_lower_versions_can_be_upgraded() {
    let upgradable = |version: &str| {
        let mut slots = empty_slots();
        slots[ApoSlot::Sfx.index() as usize] = SlotValue::Guid(vxapo_pre_guid());
        make_device_info(slots, InstallMode::SfxEfx, version).can_be_upgraded()
    };
    assert!(upgradable("0"));
    assert!(upgradable("1"));
    assert!(!upgradable("2"));
    assert!(!upgradable("3"));
    assert!(!upgradable("10"));
    assert!(!upgradable("beta"));
}
