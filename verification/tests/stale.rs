use vxapo_driver::install::device::slots::InstallMode;
use vxapo_driver::install::device::stale::detect::{extract_device_instance_id, mode_from_slots};
use vxapo_driver::install::device::stale::migrate::{
    is_transient_sharing_error, rename_with_retry, FileError, RenameStep, RENAME_ATTEMPTS,
};

/// What the file system reports, as far as the retry rule reads it.
fn file_error(e: &std::io::Error) -> FileError {
    FileError {
        code: e.raw_os_error(),
        permission_denied: e.kind() == std::io::ErrorKind::PermissionDenied,
    }
}

#[test]
fn extracts_device_instance_from_sysfx_path() {
    let path = r"SYSTEM\CurrentControlSet\Control\DeviceClasses\{65E8773E-8F56-11D0-A3B9-00A0C9223196}\##?#USB#VID_2D99&PID_A037&MI_00#6&20be7186&2&0000#{65e8773e-8f56-11d0-a3b9-00a0c9223196}\#GLOBAL\Device Parameters\MSFX\0";
    assert_eq!(
        extract_device_instance_id(path).as_deref(),
        Some(r"USB\VID_2D99&PID_A037&MI_00\6&20BE7186&2&0000")
    );
}

#[test]
fn mode_inference_covers_three_modes() {
    let n = "{d04e05a6-594b-4fb6-a80d-01af5eed7d1d},";
    assert_eq!(
        mode_from_slots(&format!("{n}5"), &format!("{n}7")),
        Some(InstallMode::SfxEfx)
    );
    assert_eq!(
        mode_from_slots(&format!("{n}5"), &format!("{n}6")),
        Some(InstallMode::SfxMfx)
    );
    assert_eq!(
        mode_from_slots(&format!("{n}0"), &format!("{n}3")),
        Some(InstallMode::LfxGfx)
    );
}

#[test]
fn transient_sharing_errors_are_retryable() {
    for code in [5, 32, 33] {
        let e = std::io::Error::from_raw_os_error(code);
        assert!(is_transient_sharing_error(&file_error(&e)), "code {code} should be retried");
    }
    let missing = std::io::Error::from_raw_os_error(2);
    assert!(!is_transient_sharing_error(&file_error(&missing)));
    let not_found = std::io::Error::new(std::io::ErrorKind::NotFound, "x");
    assert!(!is_transient_sharing_error(&file_error(&not_found)));
}

/// A sharing violation is tried again while attempts are left, and reported after that;
/// any other error is reported at once.
#[test]
fn rename_is_tried_a_bounded_number_of_times() {
    let sharing = FileError { code: Some(32), permission_denied: false };
    let missing = FileError { code: Some(2), permission_denied: false };
    let denied = FileError { code: None, permission_denied: true };
    assert_eq!(rename_with_retry(1, None), RenameStep::Done);
    assert_eq!(rename_with_retry(1, Some(sharing)), RenameStep::Retry);
    assert_eq!(rename_with_retry(RENAME_ATTEMPTS - 1, Some(denied)), RenameStep::Retry);
    assert_eq!(rename_with_retry(RENAME_ATTEMPTS, Some(sharing)), RenameStep::Fail);
    assert_eq!(rename_with_retry(1, Some(missing)), RenameStep::Fail);
}
