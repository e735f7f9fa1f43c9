use vxapo_driver::error::VxApoError;
use vxapo_driver::install::device::info::RENDER_PATH;
use vxapo_driver::install::device::stale::detect::{config_is_meaningful, is_healthy, validate_guid};
use vxapo_driver::install::device::stale::migrate::{
    migration_warnings, FileStep, MigrationOutcomes,
};
use vxapo_driver::install::device::stale::{
    cleanup_orphan, config_path, fix_config_acl, list_stale_installs, migrate_install, FileStat, Files,
    GuidFiles,
};
use vxapo_driver::install::selector::operation;
use vxapo_driver::install::selector::operation::Transaction;
use vxapo_driver::refusal::Refusal;
use vxapo_driver::registry::{Hkey, RegValue, Registry};

const OLD: &str = "{AAAAAAAA-0000-0000-0000-000000000001}";
const NEW: &str = "{BBBBBBBB-0000-0000-0000-000000000002}";
const DEVICE: &str = r"{1}.USB\VID_2D99&PID_A037&MI_00\6&20BE7186&2&0000";

fn record(guid: &str) -> String {
    format!("SOFTWARE\\VxAPO\\Child APOs\\{guid}")
}

/// A device that came back as another endpoint: the old one has a record, the new one is
/// active.
fn machine(device: &str) -> Registry {
    let root = Hkey::LocalMachine;
    let mut r = Registry::new(Vec::new());
    let place = format!("{RENDER_PATH}\\{NEW}");
    let props = format!("{place}\\Properties");
    r.create_key(root, RENDER_PATH);
    r.create_key(root, &place);
    r.set_value(root, &place, "DeviceState", RegValue::Dword(1));
    r.create_key(root, &props);
    r.set_sz(root, &props, "{b3f8fa53-0004-438e-9003-51a46e139bfc},2", device);
    r.set_sz(root, &props, "{b3f8fa53-0004-438e-9003-51a46e139bfc},6", "Speakers");
    r.create_key(root, "SOFTWARE\\VxAPO\\Child APOs");
    r.create_key(root, &record(OLD));
    let n = "{d04e05a6-594b-4fb6-a80d-01af5eed7d1d},";
    r.set_sz(root, &record(OLD), "PreMixSlot", &format!("{n}5"));
    r.set_sz(root, &record(OLD), "PostMixSlot", &format!("{n}6"));
    r.set_sz(root, &record(OLD), "DeviceInstanceId", DEVICE);
    Registry::new(r.keys)
}

fn files() -> Files {
    Files {
        config_dirs: vec![OLD.to_string()],
        snapshot_names: Vec::new(),
        entries: vec![GuidFiles {
            guid: OLD.to_string(),
            config: Some(FileStat { mtime_ms: Some(1000), len: 500 }),
            snapshot: None,
        }],
    }
}

#[test]
fn an_old_endpoint_is_matched_to_the_one_in_its_place() {
    let list = list_stale_installs(&machine(DEVICE), &files());
    assert_eq!(list.len(), 1);
    let s = &list[0];
    assert_eq!(s.guid, OLD);
    assert_eq!(s.target_guid.as_deref(), Some(NEW));
    assert_eq!(s.target_name.as_deref(), Some("Speakers"));
    assert_eq!(s.target_state, "matched_partial");
    assert_eq!(s.matched_by.as_deref(), Some("stored_identity"));
    assert_eq!(s.inferred_mode, "SfxMfx");
    assert_eq!(s.config_path.as_deref(), Some(config_path(OLD).as_str()));
    assert_eq!(s.config_mtime_ms, Some(1000));
}

#[test]
fn an_endpoint_of_another_device_is_no_match() {
    let list = list_stale_installs(&machine(r"{1}.USB\VID_0000&PID_0000\1"), &files());
    assert_eq!(list.len(), 1);
    assert_eq!(list[0].target_guid, None);
    assert_eq!(list[0].target_state, "unmatched");
    assert_eq!(list[0].display_name, OLD);
}

#[test]
fn migration_repairs_the_target_and_forgets_the_old_record() {
    let mut r = machine(DEVICE);
    let mut tx = Transaction::new();
    let report = operation::migrate_install(
        &mut r, &mut tx, &files(), OLD, NEW, None, None, true, 0, &MigrationOutcomes::granted(),
    )
    .unwrap();
    assert!(report.success && report.install_repaired);
    assert!(report.config_migrated && !report.snapshot_migrated);
    assert_eq!(report.removed_guids, vec![OLD.to_string()]);
    assert!(report.warnings.is_empty());
    assert!(is_healthy(&r, NEW));
    assert!(!r.holds_key(Hkey::LocalMachine, &record(OLD)));
    assert!(list_stale_installs(&r, &files()).is_empty());
}

fn refusal(after: usize) -> Option<Refusal> {
    Some(Refusal { after, error: "denied".to_string() })
}

/// What is refused of a migration is noted, and the rest is done.
#[test]
fn refused_writes_of_a_migration_are_noted() {
    let mut outcomes = MigrationOutcomes::granted();
    outcomes.merges = vec![refusal(1)];
    outcomes.identity = refusal(1);
    outcomes.deletions = vec![Some("no".to_string())];
    let mut r = machine(DEVICE);
    let mut tx = Transaction::new();
    let report = operation::migrate_install(
        &mut r, &mut tx, &files(), OLD, NEW, None, None, true, 0, &outcomes,
    )
    .unwrap();
    assert_eq!(
        report.warnings,
        vec![
            format!("合并旧记录 {OLD} 失败：denied"),
            "写入设备身份失败：denied".to_string(),
            format!("删除旧信息区 {OLD} 失败：no"),
        ]
    );
    assert_eq!(report.removed_guids, vec![OLD.to_string()]);
    assert!(is_healthy(&r, NEW));
    assert!(r.holds_key(Hkey::LocalMachine, &record(OLD)));
}

/// Records are merged from the last endpoint to the first, and removed from the first
/// to the last.
#[test]
fn notes_are_in_the_order_of_the_writes() {
    let text = |s: &str| Some(s.to_string());
    let outcomes = MigrationOutcomes {
        target: None,
        merges: vec![refusal(0), refusal(0)],
        identity: None,
        archives: vec![text("a"), text("b")],
        deletions: vec![None, text("c")],
    };
    let group = vec!["x".to_string(), "y".to_string()];
    assert_eq!(
        migration_warnings(&group, &outcomes),
        vec![
            "合并旧记录 y 失败：denied".to_string(),
            "合并旧记录 x 失败：denied".to_string(),
            "归档旧 GUID x 失败：a".to_string(),
            "归档旧 GUID y 失败：b".to_string(),
            "删除旧信息区 y 失败：c".to_string(),
        ]
    );
    assert!(migration_warnings(&group, &MigrationOutcomes::granted()).is_empty());
}

/// The steps of a merge, one by one, lead where the whole does.
#[test]
fn a_migration_can_be_carried_out_in_steps() {
    let whole = {
        let mut r = machine(DEVICE);
        let plan = migrate_install(&r, &files(), OLD, NEW, None, None, true).unwrap();
        assert!(plan.merge_records(&mut r, &MigrationOutcomes::granted()).is_err());
        r
    };
    let mut r = machine(DEVICE);
    let plan = migrate_install(&r, &files(), OLD, NEW, None, None, true).unwrap();
    plan.open_target(&mut r);
    plan.merge_record(&mut r, 0);
    plan.enter_device(&mut r).unwrap();
    assert_eq!(
        plan.check_whole(&r).unwrap_err(),
        VxApoError::Internal(
            "迁移后目标端点的 VxAPO 安装状态仍不完整（version / Child APOs 缺失）".to_string()
        )
    );
    assert_eq!(r, whole);
    assert_eq!(
        plan.target_refused("denied"),
        VxApoError::Internal("创建/打开目标信息区失败：denied".to_string())
    );
}

/// A merge ends at the write that was refused.
#[test]
fn a_refused_merge_keeps_what_was_written() {
    let mut outcomes = MigrationOutcomes::granted();
    outcomes.merges = vec![refusal(1)];
    outcomes.identity = refusal(0);
    let mut r = machine(DEVICE);
    let plan = migrate_install(&r, &files(), OLD, NEW, None, None, true).unwrap();
    assert!(plan.merge_records(&mut r, &outcomes).is_err());
    let root = Hkey::LocalMachine;
    assert!(r.get(root, &record(NEW), "PreMixSlot").is_some());
    assert!(r.get(root, &record(NEW), "PostMixSlot").is_none());
    assert!(r.get(root, &record(NEW), "EndpointHistory").is_none());
    outcomes.target = Some("denied".to_string());
    assert_eq!(
        plan.merge_records(&mut r, &outcomes).unwrap_err(),
        VxApoError::Internal("创建/打开目标信息区失败：denied".to_string())
    );
}

#[test]
fn migration_moves_the_files() {
    let plan = migrate_install(&machine(DEVICE), &files(), OLD, NEW, None, None, true).unwrap();
    assert_eq!(
        plan.file_steps(),
        vec![
            FileStep::Archive {
                file: config_path(NEW),
                dir: format!("C:\\ProgramData\\VxAPO\\_migration_backup\\{NEW}\\target"),
            },
            FileStep::Replace { from: config_path(OLD), to: config_path(NEW) },
        ]
    );
}

#[test]
fn migration_is_refused_with_a_reason() {
    let r = machine(DEVICE);
    let f = files();
    let plan = |old: &str, new: &str| {
        migrate_install(&r, &f, old, new, None, None, true).unwrap_err()
    };
    assert_eq!(plan("x", NEW), VxApoError::Internal("无效的端点 GUID：x".to_string()));
    assert_eq!(plan(OLD, "y"), VxApoError::Internal("无效的端点 GUID：y".to_string()));
    assert!(matches!(plan(NEW, NEW), VxApoError::Internal(_)));
    assert_eq!(plan(NEW, OLD), VxApoError::DeviceNotFound(OLD.to_string()));
    let absent = "{CCCCCCCC-0000-0000-0000-000000000003}";
    assert_eq!(
        plan(absent, NEW),
        VxApoError::Internal(format!("未找到旧安装记录：{absent}"))
    );
}

#[test]
fn an_orphan_is_cleaned_up() {
    let mut r = machine(DEVICE);
    assert_eq!(
        cleanup_orphan(&mut r, OLD, Some("denied")).unwrap_err(),
        VxApoError::Internal("删除旧信息区失败：denied".to_string())
    );
    assert!(r.holds_key(Hkey::LocalMachine, &record(OLD)));
    let paths = cleanup_orphan(&mut r, OLD, None).unwrap();
    assert!(!r.holds_key(Hkey::LocalMachine, &record(OLD)));
    assert!(format!("{paths:?}").contains("_migration_backup"));
    assert!(cleanup_orphan(&mut r, "nothing", None).is_err());
    assert!(fix_config_acl("nothing").is_err());
    assert!(fix_config_acl(OLD).unwrap().1.ends_with("}.json"));
    assert!(validate_guid(OLD).is_ok());
}

#[test]
fn small_configurations_do_not_count() {
    assert!(!config_is_meaningful(&FileStat { mtime_ms: None, len: 64 }));
    assert!(config_is_meaningful(&FileStat { mtime_ms: None, len: 65 }));
}
