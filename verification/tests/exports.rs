use vxapo_driver::guid::GUID;
use vxapo_driver::host::installation::clsid_entries::registration_order;
use vxapo_driver::host::instance::apo_interface::ApoObject;
use vxapo_driver::hresult::{
    failed, CLASS_E_CLASSNOTAVAILABLE, E_FAIL, E_POINTER, S_FALSE, S_OK,
};
use vxapo_driver::installation::exports::{
    register_class_at, to_registry_bytes, undo_registration, DllCanUnloadNow, DllGetClassObject,
    DllMain, DllRegisterServer, DllUnregisterServer, RegisterStep,
};
use vxapo_driver::instance::ref_count;
use vxapo_driver::object::vx_reg_props::{clsid_post_mix, clsid_pre_mix};
use vxapo_driver::registry::{Hkey, Registry};

#[test]
fn can_unload_when_empty() {
    let instances: u32 = 0;
    let locks: u32 = 0;
    assert_eq!(DllCanUnloadNow(&instances, &locks), S_OK);
}

#[test]
fn cannot_unload_with_instance() {
    let mut instances: u32 = 0;
    let locks: u32 = 0;

    let obj = ApoObject::new(clsid_pre_mix(), &mut instances);

    assert_eq!(DllCanUnloadNow(&instances, &locks), S_FALSE);

    obj.release(&mut instances);
    assert_eq!(DllCanUnloadNow(&instances, &locks), S_OK);
}

#[test]
fn cannot_unload_with_lock() {
    let instances: u32 = 0;
    let mut locks: u32 = 0;

    ref_count::increment(&mut locks);
    assert_eq!(DllCanUnloadNow(&instances, &locks), S_FALSE);

    ref_count::decrement(&mut locks);
    assert_eq!(DllCanUnloadNow(&instances, &locks), S_OK);
}

#[test]
fn cannot_unload_with_both() {
    let mut instances: u32 = 0;
    let mut locks: u32 = 0;

    ref_count::increment(&mut instances);
    ref_count::increment(&mut locks);
    assert_eq!(DllCanUnloadNow(&instances, &locks), S_FALSE);

    ref_count::decrement(&mut instances);
    assert_eq!(DllCanUnloadNow(&instances, &locks), S_FALSE);

    ref_count::decrement(&mut locks);
    assert_eq!(DllCanUnloadNow(&instances, &locks), S_OK);
}

#[test]
fn get_class_object_premix() {
    let clsid = clsid_pre_mix();
    assert_eq!(DllGetClassObject(Some(&clsid), true, true), Ok(clsid));
}

#[test]
fn get_class_object_postmix() {
    let clsid = clsid_post_mix();
    assert_eq!(DllGetClassObject(Some(&clsid), true, true), Ok(clsid));
}

#[test]
fn get_class_object_unknown_clsid() {
    let clsid = GUID::zeroed();
    assert_eq!(DllGetClassObject(Some(&clsid), true, true), Err(CLASS_E_CLASSNOTAVAILABLE));
}

#[test]
fn get_class_object_null_pointers() {
    assert_eq!(DllGetClassObject(None, false, false), Err(E_POINTER));
    let clsid = clsid_pre_mix();
    assert_eq!(DllGetClassObject(Some(&clsid), false, true), Err(E_POINTER));
    assert_eq!(DllGetClassObject(Some(&clsid), true, false), Err(E_POINTER));
}

#[test]
fn dll_main_attach_returns_true() {
    let mut handle: usize = 0;
    assert!(DllMain(0x1000, 1, &mut handle));
    assert_eq!(handle, 0x1000);
}

#[test]
fn dll_main_detach_returns_true() {
    let mut handle: usize = 5;
    assert!(DllMain(0x1000, 0, &mut handle));
    assert_eq!(handle, 5);
}

#[test]
fn dll_main_unknown_reason() {
    let mut handle: usize = 5;
    assert!(DllMain(0x1000, 999, &mut handle));
    assert_eq!(handle, 5);
}

#[test]
fn full_lifecycle_simulation() {
    let mut instances: u32 = 0;
    let locks: u32 = 0;

    let clsid = clsid_pre_mix();
    let class = DllGetClassObject(Some(&clsid), true, true).unwrap();
    let obj = ApoObject::new(class, &mut instances);
    assert_eq!(obj.clsid, clsid);

    obj.release(&mut instances);

    assert_eq!(DllCanUnloadNow(&instances, &locks), S_OK);
}

#[test]
fn registry_bytes_are_wide_and_ended() {
    assert_eq!(to_registry_bytes("Ab"), vec![0x41, 0, 0x62, 0, 0, 0]);
    assert_eq!(to_registry_bytes(""), vec![0, 0]);
    assert_eq!(to_registry_bytes("\u{1F50A}"), vec![0x3D, 0xD8, 0x0A, 0xDD, 0, 0]);
}

/// The classes are registered in turn; a failure is undone whole, with the class that
/// failed.
#[test]
fn registration_goes_class_by_class() {
    assert_eq!(DllRegisterServer(None, &[]), RegisterStep::Done(E_FAIL));
    let dll = Some(r"C:\vxapo.dll");
    assert_eq!(DllRegisterServer(dll, &[]), RegisterStep::Register(0));
    assert_eq!(DllRegisterServer(dll, &[true]), RegisterStep::Register(1));
    assert_eq!(DllRegisterServer(dll, &[true, true]), RegisterStep::Done(S_OK));
    assert_eq!(
        DllRegisterServer(dll, &[true, false]),
        RegisterStep::Undo { count: 2, hr: E_FAIL }
    );
    assert!(failed(E_FAIL));
    assert!(!failed(S_FALSE));
}

#[test]
fn registered_classes_lead_to_the_library_and_can_be_removed() {
    let mut registry = Registry::new(Vec::new());
    register_class_at(&mut registry, 0, r"C:\vxapo.dll");
    register_class_at(&mut registry, 1, r"C:\vxapo.dll");
    for entry in registration_order() {
        let path = entry.inproc_server_path();
        assert_eq!(
            registry.get_sz(Hkey::ClassesRoot, &path, "").as_deref(),
            Some(r"C:\vxapo.dll")
        );
        assert_eq!(
            registry.get_sz(Hkey::ClassesRoot, &path, "ThreadingModel").as_deref(),
            Some("Both")
        );
    }
    assert_eq!(DllUnregisterServer(&mut registry), S_OK);
    for entry in registration_order() {
        assert!(!registry.holds_key(Hkey::ClassesRoot, &entry.clsid_key_path()));
    }
}

#[test]
fn undone_registration_leaves_nothing() {
    let mut registry = Registry::new(Vec::new());
    register_class_at(&mut registry, 0, r"C:\vxapo.dll");
    undo_registration(&mut registry, 1);
    let first = &registration_order()[0];
    assert!(!registry.holds_key(Hkey::ClassesRoot, &first.clsid_key_path()));
}
