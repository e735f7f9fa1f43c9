use vxapo_driver::error::VxApoError;
use vxapo_driver::guid::guid_to_string;
use vxapo_driver::install::audiodg::{disable, ensure_can_load, is_disabled, restore};
use vxapo_driver::install::device::endpoint::Flow;
use vxapo_driver::install::device::info::{enumerate_devices, CAPTURE_PATH, RENDER_PATH};
use vxapo_driver::install::device::slots::{ApoSlot, InstallMode};
use vxapo_driver::install::device::stale::detect::is_healthy;
use vxapo_driver::install::selector::operation::execute::{must_succeed, vacate_slot};
use vxapo_driver::install::selector::operation::{
    uninstall_endpoint, write_install_config, InstallConfig, Transaction, UninstallOutcomes,
};
use vxapo_driver::install::selector::select::{
    print_device_list, prompt_text, run_install_flow, run_uninstall_flow, select_device,
};
use vxapo_driver::object::vx_reg_props::{clsid_post_mix, clsid_pre_mix};
use vxapo_driver::registry::{Hkey, RegOp, RegValue, Registry};

const GUID_A: &str = "{11111111-2222-3333-4444-555555555555}";

fn place() -> String {
    format!("{RENDER_PATH}\\{GUID_A}")
}

fn fx() -> String {
    format!("{}\\FxProperties", place())
}

fn record() -> String {
    format!("SOFTWARE\\VxAPO\\Child APOs\\{GUID_A}")
}

/// One active endpoint, without effect properties.
fn machine() -> Registry {
    let mut r = Registry::new(Vec::new());
    let root = Hkey::LocalMachine;
    r.create_key(root, RENDER_PATH);
    r.create_key(root, &place());
    r.set_value(root, &place(), "DeviceState", RegValue::Dword(1));
    let props = format!("{}\\Properties", place());
    r.create_key(root, &props);
    r.set_sz(root, &props, "{b3f8fa53-0004-438e-9003-51a46e139bfc},6", "Speakers");
    Registry::new(r.keys)
}

fn slot(r: &Registry, s: ApoSlot) -> Option<String> {
    r.get_sz(Hkey::LocalMachine, &fx(), &s.value_name())
}

fn install(r: &mut Registry, config: &InstallConfig) -> (Transaction, Option<String>) {
    let mut tx = Transaction::new();
    let backup = write_install_config(r, &mut tx, GUID_A, "Speakers", "Line", config, 0).unwrap();
    (tx, backup)
}

#[test]
fn install_fills_the_slots_and_is_found() {
    let mut r = machine();
    let (_, backup) = install(&mut r, &InstallConfig::default_config());
    assert_eq!(backup, None);
    assert_eq!(slot(&r, ApoSlot::Sfx), Some(guid_to_string(&clsid_pre_mix())));
    assert_eq!(slot(&r, ApoSlot::Efx), Some(guid_to_string(&clsid_post_mix())));
    assert!(is_disabled(&r).unwrap());
    assert!(is_healthy(&r, GUID_A));
    let devices = enumerate_devices(&r).unwrap();
    assert_eq!(devices.len(), 1);
    assert!(devices[0].is_installed());
    assert_eq!(devices[0].install_mode, InstallMode::SfxEfx);
    assert_eq!(print_device_list(&devices), vec!["  [0] Speakers (已安装, SfxEfx)".to_string()]);
}

#[test]
fn install_names_the_backup_of_earlier_effects() {
    let mut r = machine();
    r.create_key(Hkey::LocalMachine, &fx());
    r.set_sz(Hkey::LocalMachine, &fx(), "version", "1");
    let (_, backup) = install(&mut r, &InstallConfig::default_config());
    let file = backup.unwrap();
    assert!(file.starts_with("C:\\ProgramData\\VxAPO\\backups\\"), "{file}");
    assert!(file.contains("Speakers") && file.contains("Line"), "{file}");
}

#[test]
fn install_fails_without_the_endpoint() {
    let mut r = Registry::new(Vec::new());
    let mut tx = Transaction::new();
    let config = InstallConfig::default_config();
    let e = write_install_config(&mut r, &mut tx, GUID_A, "n", "c", &config, 0).unwrap_err();
    assert_eq!(e, VxApoError::DeviceNotFound(GUID_A.to_string()));
    let e = write_install_config(&mut r, &mut tx, GUID_A, "n", "c", &config, 5).unwrap_err();
    assert!(matches!(e, VxApoError::Internal(_)));
    assert!(is_disabled(&r).unwrap());
    tx.rollback(&mut r);
    assert!(r.keys.is_empty());
}

#[test]
fn uninstall_leaves_no_trace() {
    let mut r = machine();
    r.create_key(Hkey::LocalMachine, &fx());
    r.set_sz(Hkey::LocalMachine, &fx(), "other", "kept");
    install(&mut r, &InstallConfig::default_config());
    uninstall_endpoint(&mut r, GUID_A, UninstallOutcomes::granted()).unwrap();
    for s in ApoSlot::ALL {
        assert_eq!(slot(&r, s), None);
    }
    assert!(!r.holds_key(Hkey::LocalMachine, &record()));
    assert_eq!(r.get_sz(Hkey::LocalMachine, &fx(), "other").as_deref(), Some("kept"));
    assert!(!is_healthy(&r, GUID_A));
    assert!(!enumerate_devices(&r).unwrap()[0].is_installed());
}

#[test]
fn uninstall_spares_the_slots_of_others() {
    let other = "{6861CFDC-0461-49D5-A8DF-BE5ACD02692F}";
    let mut r = machine();
    install(&mut r, &InstallConfig::default_config());
    r.set_sz(Hkey::LocalMachine, &fx(), &ApoSlot::Sfx.value_name(), other);
    uninstall_endpoint(&mut r, GUID_A, UninstallOutcomes::granted()).unwrap();
    assert_eq!(slot(&r, ApoSlot::Sfx).as_deref(), Some(other));
    assert_eq!(slot(&r, ApoSlot::Efx), None);
}

const OTHER: &str = "{6861CFDC-0461-49D5-A8DF-BE5ACD02692F}";

/// An endpoint on which another product has both slots.
fn shared_machine() -> Registry {
    let mut r = machine();
    r.create_key(Hkey::LocalMachine, &fx());
    r.set_sz(Hkey::LocalMachine, &fx(), &ApoSlot::Sfx.value_name(), OTHER);
    r.set_sz(Hkey::LocalMachine, &fx(), &ApoSlot::Efx.value_name(), &OTHER.to_lowercase());
    Registry::new(r.keys)
}

#[test]
fn uninstall_puts_the_displaced_objects_back() {
    let mut r = shared_machine();
    install(&mut r, &InstallConfig::default_config());
    let kept = |r: &Registry, name: &str| r.get_sz(Hkey::LocalMachine, &record(), name);
    assert_eq!(kept(&r, "PreMixSlot"), Some(ApoSlot::Sfx.value_name()));
    assert_eq!(kept(&r, "PreMixSlotValue").as_deref(), Some(OTHER));
    assert_eq!(kept(&r, "PostMixSlotValue").as_deref(), Some(OTHER));
    uninstall_endpoint(&mut r, GUID_A, UninstallOutcomes::granted()).unwrap();
    assert_eq!(slot(&r, ApoSlot::Sfx).as_deref(), Some(OTHER));
    assert_eq!(slot(&r, ApoSlot::Efx).as_deref(), Some(OTHER));
    assert_eq!(slot(&r, ApoSlot::Mfx), None);
    assert!(!r.holds_key(Hkey::LocalMachine, &record()));
}

/// Every slot is tried; where one is refused, nothing more is done.
#[test]
fn a_refused_slot_stops_the_removal() {
    let mut r = shared_machine();
    install(&mut r, &InstallConfig::default_config());
    let mut outcomes = UninstallOutcomes::granted();
    outcomes.slots = vec![false, false, true, false, false];
    assert_eq!(
        uninstall_endpoint(&mut r, GUID_A, outcomes).unwrap_err(),
        VxApoError::Internal(
            "卸载槽位失败：写入被拒绝（句柄权限或键 ACL 异常）。请以管理员重试；若仍失败，重启音频服务（net stop audiosrv && net start audiosrv）后重试卸载。".to_owned()
        )
    );
    assert_eq!(slot(&r, ApoSlot::Sfx), Some(guid_to_string(&clsid_pre_mix())));
    assert_eq!(slot(&r, ApoSlot::Efx), None);
    assert!(r.holds_key(Hkey::LocalMachine, &record()));
}

/// A slot without an own object is not written, and cannot be refused.
#[test]
fn a_slot_of_others_is_not_refused() {
    let mut r = shared_machine();
    install(&mut r, &InstallConfig::default_config());
    let mut outcomes = UninstallOutcomes::granted();
    outcomes.slots = vec![true, true];
    assert!(uninstall_endpoint(&mut r, GUID_A, outcomes).is_ok());
}

#[test]
fn a_refused_record_is_reported() {
    let mut r = shared_machine();
    install(&mut r, &InstallConfig::default_config());
    let mut outcomes = UninstallOutcomes::granted();
    outcomes.record = Some("access denied".to_owned());
    assert_eq!(
        uninstall_endpoint(&mut r, GUID_A, outcomes).unwrap_err(),
        VxApoError::Internal(format!(
            "卸载失败：删除安装信息区 HKLM\\SOFTWARE\\VxAPO\\Child APOs\\{GUID_A} 失败：access denied"
        ))
    );
    assert_eq!(slot(&r, ApoSlot::Sfx).as_deref(), Some(OTHER));
    assert!(r.holds_key(Hkey::LocalMachine, &record()));
    assert!(r.get_sz(Hkey::LocalMachine, &fx(), "version").is_some());
}

#[test]
fn a_refused_write_ends_the_restoring() {
    let mut r = shared_machine();
    install(&mut r, &InstallConfig::default_config());
    let error = VxApoError::Internal("access denied".to_owned());
    let mut outcomes = UninstallOutcomes::granted();
    outcomes.restoring = Some((1, error.clone()));
    assert_eq!(uninstall_endpoint(&mut r, GUID_A, outcomes).unwrap_err(), error);
    assert_eq!(slot(&r, ApoSlot::Sfx).as_deref(), Some(OTHER));
    assert_eq!(slot(&r, ApoSlot::Efx), None);
    assert!(r.holds_key(Hkey::LocalMachine, &record()));
}

/// A slot can be emptied by itself.
#[test]
fn own_objects_leave_one_slot() {
    let mut r = shared_machine();
    install(&mut r, &InstallConfig::default_config());
    assert!(vacate_slot(&mut r, &fx(), ApoSlot::Sfx));
    assert!(!vacate_slot(&mut r, &fx(), ApoSlot::Mfx));
    assert_eq!(slot(&r, ApoSlot::Sfx), None);
    assert_eq!(slot(&r, ApoSlot::Efx), Some(guid_to_string(&clsid_post_mix())));
}

/// What is in the way may stay; the default effects may not.
#[test]
fn only_the_takeover_has_to_delete() {
    let delete = |name: &str| RegOp::DeleteValue {
        root: Hkey::LocalMachine,
        path: fx(),
        name: name.to_owned(),
    };
    assert!(must_succeed(&delete("{D04E05A6-594B-4FB6-A80D-01AF5EED7D1D},6")));
    assert!(!must_succeed(&delete(&ApoSlot::Lfx.value_name())));
    assert!(!must_succeed(&delete("DisableEnhancements")));
    assert!(must_succeed(&RegOp::CreateKey { root: Hkey::LocalMachine, path: fx() }));
}

/// A second installation finds this library's own objects, which are no backup.
#[test]
fn a_second_installation_keeps_the_backup() {
    let mut r = shared_machine();
    install(&mut r, &InstallConfig::default_config());
    install(&mut r, &InstallConfig::default_config());
    assert_eq!(
        r.get_sz(Hkey::LocalMachine, &record(), "PreMixSlotValue").as_deref(),
        Some(OTHER)
    );
    uninstall_endpoint(&mut r, GUID_A, UninstallOutcomes::granted()).unwrap();
    assert_eq!(slot(&r, ApoSlot::Sfx).as_deref(), Some(OTHER));
}

/// The record keeps the endpoints it has, and gains those of the endpoint's history
/// and the endpoint itself.
#[test]
fn an_installation_keeps_the_recorded_history() {
    let root = Hkey::LocalMachine;
    let earlier = "{0.0.0.00000000}.{AAAAAAAA-2222-3333-4444-555555555555}".to_owned();
    let live = "{0.0.0.00000000}.{BBBBBBBB-2222-3333-4444-555555555555}".to_owned();
    let mut r = machine();
    let props = format!("{}\\Properties", place());
    r.set_value(
        root,
        &props,
        "{4b416b7d-8501-40c1-acfd-97aa9bdc17c8},1",
        RegValue::MultiSz(vec![live]),
    );
    r.create_key(root, "SOFTWARE\\VxAPO\\Child APOs");
    r.create_key(root, &record());
    r.set_value(root, &record(), "EndpointHistory", RegValue::MultiSz(vec![earlier]));
    let mut r = Registry::new(r.keys);
    install(&mut r, &InstallConfig::default_config());
    assert_eq!(
        r.get(root, &record(), "EndpointHistory"),
        Some(&RegValue::MultiSz(vec![
            GUID_A.to_owned(),
            "{aaaaaaaa-2222-3333-4444-555555555555}".to_owned(),
            "{bbbbbbbb-2222-3333-4444-555555555555}".to_owned(),
        ]))
    );
}

/// What took a slot since is not replaced by what was there before.
#[test]
fn uninstall_respects_who_took_the_slot() {
    let third = "{11111111-0461-49D5-A8DF-BE5ACD02692F}";
    let mut r = shared_machine();
    install(&mut r, &InstallConfig::default_config());
    r.set_sz(Hkey::LocalMachine, &fx(), &ApoSlot::Sfx.value_name(), third);
    uninstall_endpoint(&mut r, GUID_A, UninstallOutcomes::granted()).unwrap();
    assert_eq!(slot(&r, ApoSlot::Sfx).as_deref(), Some(third));
    assert_eq!(slot(&r, ApoSlot::Efx).as_deref(), Some(OTHER));
}

#[test]
fn an_own_object_in_the_record_is_not_put_back() {
    let own = guid_to_string(&clsid_post_mix());
    let mut r = machine();
    install(&mut r, &InstallConfig::default_config());
    r.set_sz(Hkey::LocalMachine, &record(), "PreMixSlotValue", &own);
    uninstall_endpoint(&mut r, GUID_A, UninstallOutcomes::granted()).unwrap();
    assert_eq!(slot(&r, ApoSlot::Sfx), None);
}

#[test]
fn uninstall_without_effects_changes_nothing() {
    let mut r = machine();
    uninstall_endpoint(&mut r, GUID_A, UninstallOutcomes::granted()).unwrap();
    assert!(r.journal.is_empty());
    assert_eq!(
        uninstall_endpoint(&mut r, "{0}", UninstallOutcomes::granted()).unwrap_err(),
        VxApoError::DeviceNotFound("{0}".to_string())
    );
}

#[test]
fn rollback_takes_the_installation_back() {
    let mut r = machine();
    let (mut tx, _) = install(&mut r, &InstallConfig::default_config());
    tx.rollback(&mut r);
    assert!(!r.holds_key(Hkey::LocalMachine, &fx()));
    assert!(!r.holds_key(Hkey::LocalMachine, &record()));
}

#[test]
fn rollback_gives_the_displaced_object_its_slot() {
    let other = "{6861CFDC-0461-49D5-A8DF-BE5ACD02692F}";
    let mut r = machine();
    r.create_key(Hkey::LocalMachine, &fx());
    r.set_sz(Hkey::LocalMachine, &fx(), "version", "1");
    r.set_sz(Hkey::LocalMachine, &fx(), &ApoSlot::Sfx.value_name(), other);
    let (mut tx, _) = install(&mut r, &InstallConfig::default_config());
    assert_eq!(slot(&r, ApoSlot::Sfx), Some(guid_to_string(&clsid_pre_mix())));
    tx.rollback(&mut r);
    assert_eq!(slot(&r, ApoSlot::Sfx).as_deref(), Some(other));
}

/// The keys with their values, in an order of their own.
fn contents(r: &Registry) -> Vec<(String, Vec<(String, RegValue)>)> {
    let mut list: Vec<(String, Vec<(String, RegValue)>)> = r
        .keys
        .iter()
        .map(|k| {
            let mut values: Vec<(String, RegValue)> =
                k.values.iter().map(|e| (e.name.to_lowercase(), e.value.clone())).collect();
            values.sort_by(|a, b| a.0.cmp(&b.0));
            (k.path.to_lowercase(), values)
        })
        .collect();
    list.sort_by(|a, b| a.0.cmp(&b.0));
    list
}

/// Undoing an installation undoes each of its changes, also those of slots that it
/// clears, and spares what was there.
#[test]
fn rollback_leads_back_to_the_same_values() {
    let mut r = shared_machine();
    let root = Hkey::LocalMachine;
    r.set_sz(root, &fx(), &ApoSlot::Lfx.value_name(), OTHER);
    r.set_value(root, &fx(), &ApoSlot::Mfx.value_name(), RegValue::Binary(vec![7; 16]));
    r.set_value(root, &fx(), "DisableEnhancements", RegValue::Dword(1));
    r.set_value(root, &fx(), "autoAdjust", RegValue::Dword(7));
    r.set_sz(root, &fx(), "other", "kept");
    let before = contents(&r);
    let (mut tx, _) = install(&mut r, &InstallConfig::default_config());
    assert_ne!(contents(&r), before);
    tx.rollback(&mut r);
    assert_eq!(contents(&r), before);
    assert!(r.holds_key(root, &fx()));
}

#[test]
fn rollback_of_a_second_installation_keeps_the_first() {
    let mut r = shared_machine();
    install(&mut r, &InstallConfig::default_config());
    let before = contents(&r);
    let other_mode =
        InstallConfig { install_mode: InstallMode::LfxGfx, ..InstallConfig::default_config() };
    let (mut tx, _) = install(&mut r, &other_mode);
    assert_eq!(slot(&r, ApoSlot::Sfx), None);
    tx.rollback(&mut r);
    assert_eq!(contents(&r), before);
}

#[test]
fn endpoints_have_the_direction_of_their_list() {
    let mut r = machine();
    let mic = format!("{CAPTURE_PATH}\\{{0}}");
    r.create_key(Hkey::LocalMachine, CAPTURE_PATH);
    r.create_key(Hkey::LocalMachine, &mic);
    r.set_value(Hkey::LocalMachine, &mic, "DeviceState", RegValue::Dword(1));
    let flows: Vec<Flow> = enumerate_devices(&r)
        .unwrap()
        .iter()
        .map(|d| d.endpoint.as_ref().unwrap().flow)
        .collect();
    assert_eq!(flows, vec![Flow::Render, Flow::Capture]);
}

#[test]
fn committed_transaction_is_not_undone() {
    let mut r = machine();
    let (mut tx, _) = install(&mut r, &InstallConfig::default_config());
    tx.commit();
    let before = r.keys.clone();
    tx.rollback(&mut r);
    assert_eq!(r.keys, before);
}

/// Every change stands in the journal: the same changes on the same keys give the same
/// registry.
#[test]
fn journal_replays_to_the_same_registry() {
    let mut r = machine();
    install(&mut r, &InstallConfig::default_config());
    let mut copy = machine();
    for op in r.journal.clone() {
        copy.perform(op);
    }
    assert_eq!(copy.keys, r.keys);
}

#[test]
fn selection_reads_the_number() {
    let r = machine();
    assert_eq!(prompt_text(3), "请选择设备编号 [0-2]: ");
    assert!(select_device(&r, "0").unwrap().is_some());
    assert!(select_device(&r, "7").unwrap().is_none());
    assert!(select_device(&r, "x").unwrap().is_none());
    assert!(select_device(&Registry::new(Vec::new()), "0").is_err());
    let q = run_install_flow(&r, " 0 ").unwrap();
    assert_eq!(q.device_guid, GUID_A);
    assert_eq!(q.device_name, "Speakers");
    assert_eq!(q.config, InstallConfig::default_config());
    assert_eq!(run_uninstall_flow(&r, "0").unwrap(), GUID_A);
    assert!(run_uninstall_flow(&r, "9").is_err());
}

#[test]
fn protection_is_lifted_and_given_back() {
    let mut r = Registry::new(Vec::new());
    assert!(!is_disabled(&r).unwrap());
    disable(&mut r).unwrap();
    assert!(is_disabled(&r).unwrap());
    restore(&mut r).unwrap();
    assert!(!is_disabled(&r).unwrap());
    let mut known = false;
    ensure_can_load(&mut r, &mut known).unwrap();
    assert!(is_disabled(&r).unwrap() && known);
}
