use vxapo_driver::error::VxApoError;
use vxapo_driver::guid::guid_to_string;
use vxapo_driver::install::device::info::RENDER_PATH;
use vxapo_driver::install::device::slots::{ApoSlot, InstallMode};
use vxapo_driver::install::device::sysfx::{
    changes_to_backups, ensure_takeover_for_endpoint, find_msfx_entries, make_changes,
    plan_msfx_restore, plan_msfx_restore_defaults, plan_msfx_takeover, ScanCache, SysFxBackup,
    DEVICE_CLASSES_ROOT, KS_RENDER_CLASS, MS_CAPX_MODE_CLSID, MS_CAPX_STREAM_CLSID,
    PKEY_FX_MODE_EFFECT_CLSID, PKEY_FX_STREAM_EFFECT_CLSID, SCAN_INTERVAL_MS,
};
use vxapo_driver::object::vx_reg_props::{clsid_post_mix, clsid_pre_mix};
use vxapo_driver::registry::{Hkey, RegValue, Registry};

const ROOT: Hkey = Hkey::LocalMachine;
const DEVICE: &str = r"{1}.USB\VID_1234&PID_5678\1&0";

fn endpoint() -> String {
    format!("{RENDER_PATH}\\{{11111111-2222-3333-4444-555555555555}}")
}

fn template() -> String {
    let name = "##?#usb#vid_1234&pid_5678#1&0";
    format!(
        "{DEVICE_CLASSES_ROOT}\\{KS_RENDER_CLASS}\\{name}#{KS_RENDER_CLASS}\\#GLOBAL\\Device Parameters\\MSFX\\0"
    )
}

fn create_with_parents(r: &mut Registry, path: &str) {
    for (i, c) in path.char_indices() {
        if c == '\\' {
            r.create_key(ROOT, &path[..i]);
        }
    }
    r.create_key(ROOT, path);
}

/// A device whose template holds Microsoft's default effects.
fn machine() -> Registry {
    let mut r = Registry::new(Vec::new());
    create_with_parents(&mut r, &template());
    r.set_sz(ROOT, &template(), PKEY_FX_STREAM_EFFECT_CLSID, MS_CAPX_STREAM_CLSID);
    r.set_sz(ROOT, &template(), PKEY_FX_MODE_EFFECT_CLSID, MS_CAPX_MODE_CLSID);
    let props = format!("{}\\Properties", endpoint());
    create_with_parents(&mut r, &props);
    r.set_sz(ROOT, &props, "{B3F8FA53-0004-438E-9003-51A46E139BFC},2", DEVICE);
    Registry::new(r.keys)
}

fn held(r: &Registry, name: &str) -> Option<String> {
    r.get_sz(ROOT, &template(), name)
}

#[test]
fn templates_are_found_by_the_device() {
    let r = machine();
    assert_eq!(find_msfx_entries(&r, Some(DEVICE), None).unwrap(), vec![template()]);
    assert!(find_msfx_entries(&r, Some("USB\\OTHER\\1"), None).unwrap().is_empty());
    assert!(find_msfx_entries(&r, None, None).unwrap().is_empty());
    assert!(find_msfx_entries(&r, Some(DEVICE), Some("{0}")).unwrap().is_empty());
}

#[test]
fn a_takeover_is_undone_by_its_backup() {
    let mut r = machine();
    let before = r.keys.clone();
    let plan = plan_msfx_takeover(&r, &[template()], InstallMode::SfxEfx, true, true).unwrap();
    make_changes(&mut r, &plan);
    assert_eq!(held(&r, PKEY_FX_STREAM_EFFECT_CLSID), Some(guid_to_string(&clsid_pre_mix())));
    assert_eq!(held(&r, PKEY_FX_MODE_EFFECT_CLSID), None);
    let back = plan_msfx_restore(&r, &changes_to_backups(&plan)).unwrap();
    make_changes(&mut r, &back);
    assert_eq!(held(&r, PKEY_FX_STREAM_EFFECT_CLSID).as_deref(), Some(MS_CAPX_STREAM_CLSID));
    assert_eq!(held(&r, PKEY_FX_MODE_EFFECT_CLSID).as_deref(), Some(MS_CAPX_MODE_CLSID));
    assert_eq!(r.keys, before);
}

/// Several templates, one of them of another product, are given back as they were.
#[test]
fn a_takeover_of_several_templates_is_undone() {
    let second = format!("{}1", template());
    let third = format!("{}2", template());
    let foreign = "{6861CFDC-0461-49D5-A8DF-BE5ACD02692F}";
    for mode in [InstallMode::SfxEfx, InstallMode::SfxMfx, InstallMode::LfxGfx] {
        let mut r = machine();
        r.create_key(ROOT, &second);
        r.set_sz(ROOT, &second, PKEY_FX_STREAM_EFFECT_CLSID, MS_CAPX_STREAM_CLSID);
        r.create_key(ROOT, &third);
        r.set_sz(ROOT, &third, PKEY_FX_STREAM_EFFECT_CLSID, foreign);
        let paths = [template(), second.clone(), third.clone(), template()];
        let before = r.keys.clone();
        let plan = plan_msfx_takeover(&r, &paths, mode, true, true).unwrap();
        make_changes(&mut r, &plan);
        assert_ne!(r.keys, before);
        let back = plan_msfx_restore(&r, &changes_to_backups(&plan)).unwrap();
        make_changes(&mut r, &back);
        assert_eq!(held(&r, PKEY_FX_STREAM_EFFECT_CLSID).as_deref(), Some(MS_CAPX_STREAM_CLSID));
        assert_eq!(held(&r, PKEY_FX_MODE_EFFECT_CLSID).as_deref(), Some(MS_CAPX_MODE_CLSID));
        assert_eq!(r.keys, before);
    }
}

#[test]
fn the_mode_effect_gives_way_where_the_mode_asks_for_it() {
    let mut r = machine();
    let plan = plan_msfx_takeover(&r, &[template()], InstallMode::SfxMfx, true, true).unwrap();
    make_changes(&mut r, &plan);
    assert_eq!(held(&r, PKEY_FX_MODE_EFFECT_CLSID), Some(guid_to_string(&clsid_post_mix())));
}

#[test]
fn effects_of_others_are_spared() {
    let other = "{6861CFDC-0461-49D5-A8DF-BE5ACD02692F}";
    let mut r = machine();
    r.set_sz(ROOT, &template(), PKEY_FX_STREAM_EFFECT_CLSID, other);
    r.set_sz(ROOT, &template(), PKEY_FX_MODE_EFFECT_CLSID, other);
    let plan = plan_msfx_takeover(&r, &[template()], InstallMode::SfxEfx, true, true).unwrap();
    assert!(plan.is_empty());
}

#[test]
fn a_missing_template_is_reported() {
    let r = machine();
    let gone = "SYSTEM\\gone".to_string();
    let expected = VxApoError::KeyNotFound(gone.clone());
    assert_eq!(
        plan_msfx_takeover(&r, &[gone.clone()], InstallMode::SfxEfx, true, true).unwrap_err(),
        expected
    );
    assert_eq!(plan_msfx_restore_defaults(&r, &[gone.clone()]).unwrap_err(), expected);
    let backup = SysFxBackup { key_path: gone, stream: None, mode: None };
    assert_eq!(plan_msfx_restore(&r, &[backup]).unwrap_err(), expected);
}

#[test]
fn defaults_replace_what_the_library_left() {
    let mut r = machine();
    r.set_sz(ROOT, &template(), PKEY_FX_STREAM_EFFECT_CLSID, &guid_to_string(&clsid_pre_mix()));
    let plan = plan_msfx_restore_defaults(&r, &[template()]).unwrap();
    make_changes(&mut r, &plan);
    assert_eq!(held(&r, PKEY_FX_STREAM_EFFECT_CLSID).as_deref(), Some(MS_CAPX_STREAM_CLSID));
}

#[test]
fn default_effects_that_come_back_are_taken_over_again() {
    let mut r = machine();
    let fx = format!("{}\\FxProperties", endpoint());
    r.create_key(ROOT, &fx);
    let mut cache = ScanCache::new();
    ensure_takeover_for_endpoint(&mut r, &mut cache, 0, &endpoint()).unwrap();
    assert_eq!(held(&r, PKEY_FX_STREAM_EFFECT_CLSID).as_deref(), Some(MS_CAPX_STREAM_CLSID));

    r.set_sz(ROOT, &fx, &ApoSlot::Sfx.value_name(), &guid_to_string(&clsid_pre_mix()));
    r.set_value(ROOT, &fx, "DisableEnhancements", RegValue::Dword(1));
    ensure_takeover_for_endpoint(&mut r, &mut cache, 10, &endpoint()).unwrap();
    assert_eq!(held(&r, PKEY_FX_STREAM_EFFECT_CLSID), Some(guid_to_string(&clsid_pre_mix())));
    assert_eq!(held(&r, PKEY_FX_MODE_EFFECT_CLSID), None);
    assert_eq!(r.get(ROOT, &fx, "DisableEnhancements"), None);

    r.set_sz(ROOT, &template(), PKEY_FX_STREAM_EFFECT_CLSID, MS_CAPX_STREAM_CLSID);
    ensure_takeover_for_endpoint(&mut r, &mut cache, 20, &endpoint()).unwrap();
    assert_eq!(held(&r, PKEY_FX_STREAM_EFFECT_CLSID).as_deref(), Some(MS_CAPX_STREAM_CLSID));
    ensure_takeover_for_endpoint(&mut r, &mut cache, 10 + SCAN_INTERVAL_MS, &endpoint()).unwrap();
    assert_eq!(held(&r, PKEY_FX_STREAM_EFFECT_CLSID), Some(guid_to_string(&clsid_pre_mix())));
}
