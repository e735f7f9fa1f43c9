use vxapo_driver::install::device::endpoint::{EndpointInfo, EndpointState, Flow};
use vxapo_driver::install::device::info::DeviceInfo;
use vxapo_driver::install::device::slots::{InstallMode, SlotValue};
use vxapo_driver::install::selector::select::{print_device_list, prompt_text, prompt_user};
use vxapo_driver::object::vx_reg_props::clsid_pre_mix;

fn make_device(name: &str, installed: bool) -> DeviceInfo {
    let mut slots = [SlotValue::NoKey; 5];
    if installed {
        slots[2] = SlotValue::Guid(clsid_pre_mix());
    }
    DeviceInfo {
        endpoint: Some(EndpointInfo {
            device_id: "test-id".to_string(),
            friendly_name: name.to_string(),
            state: EndpointState::Active,
            flow: Flow::Render,
            endpoint_guid: "{00000000-0000-0000-0000-000000000000}".to_string(),
        }),
        install_mode: InstallMode::SfxEfx,
        slots,
        format: None,
        installed_version: if installed { "2".to_string() } else { String::new() },
    }
}

#[test]
fn print_device_list_renders() {
    let devices = vec![make_device("Speakers", true), make_device("Headphones", false)];
    let lines = print_device_list(&devices);
    assert!(!lines.is_empty());
}

#[test]
fn detect_endpoint_guid() {
    let d = make_device("Test", false);
    let guid = d
        .endpoint
        .as_ref()
        .map(|e| e.endpoint_guid.clone())
        .unwrap();
    assert_eq!(guid, "{00000000-0000-0000-0000-000000000000}");
}

#[test]
fn the_answer_is_a_number_in_range() {
    let devices = vec![make_device("Speakers", true), make_device("Headphones", false)];
    assert_eq!(prompt_text(devices.len()), "请选择设备编号 [0-1]: ");
    assert_eq!(prompt_user(&devices, " 1\n").unwrap(), 1);
    assert_eq!(prompt_user(&devices, "two").unwrap_err().message(), "无效的设备编号");
    assert_eq!(prompt_user(&devices, "2").unwrap_err().message(), "设备编号超出范围");
}
