use vxapo_driver::install::audiodg::{is_disabled_at, PROTECTION_VALUE};
use vxapo_driver::registry::{Hkey, RegValue, Registry};

const TEST_PREFIX: &str = r"SOFTWARE\VxAPO_Test_Audiodg";

fn test_path(name: &str) -> String {
    format!("{}\\{}", TEST_PREFIX, name)
}

fn with_value(path: &str, value: u32) -> Registry {
    let mut registry = Registry::new(Vec::new());
    registry.create_key(Hkey::CurrentUser, path);
    registry.set_value(Hkey::CurrentUser, path, PROTECTION_VALUE, RegValue::Dword(value));
    registry
}

#[test]
fn missing_key_means_not_disabled() {
    let result = is_disabled_at(&Registry::new(Vec::new()), Hkey::CurrentUser, r"SOFTWARE\VxAPO_Test_Nonexistent_Audiodg");
    assert_eq!(result.unwrap(), false);
}

#[test]
fn write_1_then_disabled() {
    let path = test_path("write_1");
    let registry = with_value(&path, 1);
    assert_eq!(is_disabled_at(&registry, Hkey::CurrentUser, &path).unwrap(), true);
}

#[test]
fn write_0_means_not_disabled() {
    let path = test_path("write_0");
    let registry = with_value(&path, 0);
    assert_eq!(is_disabled_at(&registry, Hkey::CurrentUser, &path).unwrap(), false);
}

#[test]
fn delete_restores_default() {
    let path = test_path("delete_restore");
    let mut registry = with_value(&path, 1);
    assert_eq!(is_disabled_at(&registry, Hkey::CurrentUser, &path).unwrap(), true);

    registry.delete_value(Hkey::CurrentUser, &path, PROTECTION_VALUE);
    assert_eq!(is_disabled_at(&registry, Hkey::CurrentUser, &path).unwrap(), false);
}
