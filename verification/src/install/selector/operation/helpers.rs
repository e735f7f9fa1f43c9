//! The steps of an installation.

use vstd::prelude::*;
use crate::error::{ErrorView, VxApoError};
use crate::guid;
use crate::guid::{guid_to_string, GUID};
use crate::install::device::identity;
use crate::install::device::identity::{
    identity_from_key, merge_endpoint_history, read_endpoint_identity, write_identity_values,
    EndpointIdentity, IdentityView,
};
use crate::install::device::slots::child;
use crate::install::device::slots::child::{split_path, ChildApoKind, CHILD_APO_PATH_ROOT};
use crate::install::device::slots::read;
use crate::install::device::slots::read::slot_value;
use crate::install::device::slots::types;
use crate::install::device::slots::{
    read_slot_value, ApoSlot, InstallMode, SlotValue, INSTALL_VERSION,
};
use crate::install::selector::operation::InstallConfig;
use crate::object::vx_reg_props;
use crate::object::vx_reg_props::{clsid_pre_mix, own_clsid};
use crate::registry;
use crate::registry::{
    copy_texts, join_path, Hkey, KeyView, OpView, RegKey, RegValue, Registry, ValueView,
};
use crate::text;
use crate::text::{concat2, concat3, decimal_text, position_of};
use crate::text::{eq_ignore_case, to_chars};

verus! {

/// Record value: the name of the slot used before mixing.
pub const BACKUP_PREMIX_SLOT: &'static str = "PreMixSlot";

/// Record value: the name of the slot used after mixing.
pub const BACKUP_POSTMIX_SLOT: &'static str = "PostMixSlot";

/// Record value: the object of others that the slot before mixing held.
pub const BACKUP_PREMIX_SLOT_VALUE: &'static str = "PreMixSlotValue";

/// Record value: the object of others that the slot after mixing held.
pub const BACKUP_POSTMIX_SLOT_VALUE: &'static str = "PostMixSlotValue";

/// Effect property: whether silent buffers may be passed through.
pub const ALLOW_SILENT_BUFFER_VALUE: &'static str = "allowSilentBuffer";

/// Effect property: whether levels are adjusted.
pub const AUTO_ADJUST_VALUE: &'static str = "autoAdjust";

/// Effect property: the installed version.
pub const VERSION_VALUE: &'static str = "version";

/// The name of the processing-mode properties up to the property identifier.
pub const PROCESSING_MODES_PREFIX: &'static str = "{d3993a3f-99c2-4402-b5ec-a92a0367664b},";

/// Where exported effect properties are kept.
pub const BACKUP_DIR: &'static str = "C:\\ProgramData\\VxAPO\\backups";

/// The default signal processing mode.
#[verifier::allow_in_spec]
pub fn default_processing_mode() -> GUID
    returns
        (GUID {
            data1: 0xC18E2F7E,
            data2: 0x933D,
            data3: 0x4965,
            data4: [0xB7, 0xD1, 0x1E, 0xEF, 0x22, 0x8D, 0x2A, 0xF3],
        }),
{
    GUID {
        data1: 0xC18E2F7E,
        data2: 0x933D,
        data3: 0x4965,
        data4: [0xB7, 0xD1, 0x1E, 0xEF, 0x22, 0x8D, 0x2A, 0xF3],
    }
}

// ---------------------------------------------------------------------------
// Effect properties
// ---------------------------------------------------------------------------
/// Whether the effect properties at a place are those of no installation.
pub open spec fn fx_is_new(r: Seq<KeyView>, fx_path: Seq<char>) -> bool {
    registry::value_at(r, Hkey::LocalMachine, fx_path, VERSION_VALUE@) is None
}

/// The change that makes sure of the effect properties.
pub open spec fn fx_ops(r: Seq<KeyView>, fx_path: Seq<char>) -> Seq<OpView> {
    identity::op_if(
        !registry::has_key(r, Hkey::LocalMachine, fx_path),
        OpView::CreateKey { root: Hkey::LocalMachine, path: fx_path },
    )
}

/// Makes sure of the effect properties; the result says whether they are those
/// of no installation.
pub fn ensure_fx_properties(registry: &mut Registry, fx_path: &str) -> (is_new: bool)
    ensures
        is_new == fx_is_new(old(registry)@, fx_path@),
        registry::advanced(*old(registry), *final(registry), fx_ops(old(registry)@, fx_path@)),
{
    proof {
        registry::lemma_advanced_refl(*registry);
    }
    let is_new = registry.get(Hkey::LocalMachine, fx_path, VERSION_VALUE).is_none();
    if !registry.holds_key(Hkey::LocalMachine, fx_path) {
        registry.create_key(Hkey::LocalMachine, fx_path);
    }
    is_new
}

/// What a slot of the effect properties at a place holds.
pub open spec fn slot_at(r: Seq<KeyView>, fx_path: Seq<char>, slot: ApoSlot) -> SlotValue {
    read::slot_value_of(
        registry::value_at(r, Hkey::LocalMachine, fx_path, types::slot_name(slot)),
    )
}

/// What a slot of the effect properties at a place holds.
pub fn read_slot(registry: &Registry, fx_path: &str, slot: ApoSlot) -> (r: SlotValue)
    ensures
        r == slot_at(registry@, fx_path@, slot),
{
    match RegKey::open(registry, Hkey::LocalMachine, fx_path) {
        Some(key) => read_slot_value(&key, slot),
        None => SlotValue::NoValue,
    }
}

/// The displaced object that is kept as a child: what the slot held, where it is
/// asked for and not one of this library's own.
pub open spec fn kept_child(asked: bool, v: SlotValue) -> Option<GUID> {
    match v {
        SlotValue::Guid(g) => if asked && !vx_reg_props::is_own_clsid(g) {
            Some(g)
        } else {
            None
        },
        _ => None,
    }
}

fn keep_child(asked: bool, v: SlotValue) -> (r: Option<GUID>)
    ensures
        r == kept_child(asked, v),
{
    match v {
        SlotValue::Guid(g) => if asked && !own_clsid(&g) {
            Some(g)
        } else {
            None
        },
        _ => None,
    }
}

/// The displaced objects that are kept as children.
pub fn read_original_apo_guids(registry: &Registry, fx_path: &str, config: &InstallConfig) -> (r: (
    Option<GUID>,
    Option<GUID>,
))
    ensures
        r.0 == kept_child(
            config.use_original_apo_premix,
            slot_at(registry@, fx_path@, types::premix_of(config.install_mode)),
        ),
        r.1 == kept_child(
            config.use_original_apo_postmix,
            slot_at(registry@, fx_path@, types::postmix_of(config.install_mode)),
        ),
{
    let pre = read_slot(registry, fx_path, config.install_mode.premix_slot());
    let post = read_slot(registry, fx_path, config.install_mode.postmix_slot());
    (
        keep_child(config.use_original_apo_premix, pre),
        keep_child(config.use_original_apo_postmix, post),
    )
}

// ---------------------------------------------------------------------------
// The record
// ---------------------------------------------------------------------------
/// The change that sets a text value of the local machine's hive.
pub open spec fn set_sz(path: Seq<char>, name: Seq<char>, value: Seq<char>) -> OpView {
    registry::op_set_sz(Hkey::LocalMachine, path, name, value)
}

/// The change that sets a number of the local machine's hive.
pub open spec fn set_dword(path: Seq<char>, name: Seq<char>, value: u32) -> OpView {
    OpView::SetValue { root: Hkey::LocalMachine, path, name, value: ValueView::Dword(value) }
}

/// The change that writes a class identifier, if there is one.
pub open spec fn set_guid(path: Seq<char>, name: Seq<char>, g: Option<GUID>) -> Seq<OpView> {
    match g {
        Some(g) => seq![set_sz(path, name, guid::guid_text(g))],
        None => Seq::empty(),
    }
}

/// A number for a switch.
pub open spec fn switch(b: bool) -> u32 {
    if b {
        1
    } else {
        0
    }
}

/// The changes that write which slots an installation uses, which objects of
/// others they held, and which displaced objects are kept as children. Where a slot
/// holds none, what the record has of it stays.
pub open spec fn slot_record_ops(
    r: Seq<KeyView>,
    p: Seq<char>,
    fx_path: Seq<char>,
    mode: InstallMode,
    premix: Option<GUID>,
    postmix: Option<GUID>,
) -> Seq<OpView> {
    let pre = types::premix_of(mode);
    let post = types::postmix_of(mode);
    set_guid(p, child::child_value_name(ChildApoKind::PreMix), premix) + set_guid(
        p,
        child::child_value_name(ChildApoKind::PostMix),
        postmix,
    ) + seq![
        set_sz(p, BACKUP_PREMIX_SLOT@, types::slot_name(pre)),
        set_sz(p, BACKUP_POSTMIX_SLOT@, types::slot_name(post)),
    ] + set_guid(p, BACKUP_PREMIX_SLOT_VALUE@, kept_child(true, slot_at(r, fx_path, pre)))
        + set_guid(p, BACKUP_POSTMIX_SLOT_VALUE@, kept_child(true, slot_at(r, fx_path, post)))
}

/// The changes that write the switches and the version.
pub open spec fn switch_ops(fx_path: Seq<char>, config: InstallConfig) -> Seq<OpView> {
    seq![
        set_dword(fx_path, ALLOW_SILENT_BUFFER_VALUE@, switch(config.allow_silent_buffer)),
        set_dword(fx_path, AUTO_ADJUST_VALUE@, switch(config.auto_adjust)),
        set_sz(fx_path, VERSION_VALUE@, INSTALL_VERSION@),
    ]
}

/// The endpoint identifiers that a record is given: those it has, those of the
/// endpoint's own history, and the endpoint itself.
pub open spec fn record_history(
    r: Seq<KeyView>,
    device_guid: Seq<char>,
    id: IdentityView,
) -> Seq<Seq<char>> {
    let stored = identity::record_identity(
        r,
        Hkey::LocalMachine,
        child::record_path(device_guid),
    );
    identity::merged_history(
        seq![stored.endpoint_history, id.endpoint_history, seq![device_guid]],
    )
}

/// A record that is written again loses no endpoint identifier, and gains those of
/// the endpoint's own history and the endpoint itself.
pub proof fn law_record_history(
    r: Seq<KeyView>,
    device_guid: Seq<char>,
    id: IdentityView,
    g: Seq<char>,
)
    ensures
        record_history(r, device_guid, id).contains(g) == (identity::names_endpoint(
            identity::record_identity(
                r,
                Hkey::LocalMachine,
                child::record_path(device_guid),
            ).endpoint_history,
            g,
        ) || identity::names_endpoint(id.endpoint_history, g) || identity::names_endpoint(
            seq![device_guid],
            g,
        )),
{
    let stored = identity::record_identity(
        r,
        Hkey::LocalMachine,
        child::record_path(device_guid),
    );
    let lists = seq![stored.endpoint_history, id.endpoint_history, seq![device_guid]];
    identity::law_merged_history(lists);
    assert(lists[0] == stored.endpoint_history);
    assert(lists[1] == id.endpoint_history);
    assert(lists[2] == seq![device_guid]);
}

/// The changes that write the record of an installation, and the switches and
/// the version among the effect properties.
pub open spec fn record_ops(
    r: Seq<KeyView>,
    device_guid: Seq<char>,
    endpoint_path: Seq<char>,
    fx_path: Seq<char>,
    config: InstallConfig,
    premix: Option<GUID>,
    postmix: Option<GUID>,
) -> Seq<OpView> {
    let p = child::record_path(device_guid);
    let id = identity::live_identity(r, endpoint_path);
    seq![OpView::CreateKey { root: Hkey::LocalMachine, path: p }] + slot_record_ops(
        r,
        p,
        fx_path,
        config.install_mode,
        premix,
        postmix,
    ) + identity::identity_ops(
        p,
        id,
        record_history(r, device_guid, id),
    ) + switch_ops(fx_path, config)
}

/// Writes a class identifier, if there is one.
fn write_guid(registry: &mut Registry, path: &str, name: &str, g: Option<GUID>)
    ensures
        registry::advanced(*old(registry), *final(registry), set_guid(path@, name@, g)),
{
    proof {
        registry::lemma_advanced_refl(*registry);
    }
    match g {
        Some(g) => {
            let t = guid_to_string(&g);
            registry.set_sz(Hkey::LocalMachine, path, name, t.as_str());
        },
        None => {},
    }
}

fn switch_value(b: bool) -> (r: u32)
    ensures
        r == switch(b),
{
    if b {
        1
    } else {
        0
    }
}

fn write_switches(registry: &mut Registry, fx_path: &str, config: &InstallConfig)
    ensures
        registry::advanced(*old(registry), *final(registry), switch_ops(fx_path@, *config)),
{
    let ghost r0 = *registry;
    let ghost ops = switch_ops(fx_path@, *config);
    registry.set_value(
        Hkey::LocalMachine,
        fx_path,
        ALLOW_SILENT_BUFFER_VALUE,
        RegValue::Dword(switch_value(config.allow_silent_buffer)),
    );
    let ghost r1 = *registry;
    registry.set_value(
        Hkey::LocalMachine,
        fx_path,
        AUTO_ADJUST_VALUE,
        RegValue::Dword(switch_value(config.auto_adjust)),
    );
    let ghost r2 = *registry;
    registry.set_sz(Hkey::LocalMachine, fx_path, VERSION_VALUE, INSTALL_VERSION);
    proof {
        registry::lemma_advanced_trans(r0, r1, r2, seq![ops[0]], seq![ops[1]]);
        registry::lemma_advanced_trans(
            r0,
            r2,
            *registry,
            seq![ops[0]] + seq![ops[1]],
            seq![ops[2]],
        );
        assert(seq![ops[0]] + seq![ops[1]] + seq![ops[2]] =~= ops);
    }
}

fn write_slot_record(
    registry: &mut Registry,
    p: &str,
    fx_path: &str,
    mode: InstallMode,
    premix: Option<GUID>,
    postmix: Option<GUID>,
    pre_value: Option<GUID>,
    post_value: Option<GUID>,
    r: Ghost<Seq<KeyView>>,
)
    requires
        pre_value == kept_child(true, slot_at(r@, fx_path@, types::premix_of(mode))),
        post_value == kept_child(true, slot_at(r@, fx_path@, types::postmix_of(mode))),
    ensures
        registry::advanced(
            *old(registry),
            *final(registry),
            slot_record_ops(r@, p@, fx_path@, mode, premix, postmix),
        ),
{
    let ghost r0 = *registry;
    let pre_name = mode.premix_slot().value_name();
    let post_name = mode.postmix_slot().value_name();
    write_guid(registry, p, ChildApoKind::PreMix.value_name(), premix);
    let ghost r1 = *registry;
    let ghost o1 = set_guid(p@, child::child_value_name(ChildApoKind::PreMix), premix);
    write_guid(registry, p, ChildApoKind::PostMix.value_name(), postmix);
    let ghost r2 = *registry;
    let ghost o2 = set_guid(p@, child::child_value_name(ChildApoKind::PostMix), postmix);
    registry.set_sz(Hkey::LocalMachine, p, BACKUP_PREMIX_SLOT, pre_name.as_str());
    let ghost r3 = *registry;
    let ghost o3 = seq![set_sz(p@, BACKUP_PREMIX_SLOT@, pre_name@)];
    registry.set_sz(Hkey::LocalMachine, p, BACKUP_POSTMIX_SLOT, post_name.as_str());
    let ghost r4 = *registry;
    let ghost o4 = seq![set_sz(p@, BACKUP_POSTMIX_SLOT@, post_name@)];
    write_guid(registry, p, BACKUP_PREMIX_SLOT_VALUE, pre_value);
    let ghost r5 = *registry;
    let ghost o5 = set_guid(p@, BACKUP_PREMIX_SLOT_VALUE@, pre_value);
    write_guid(registry, p, BACKUP_POSTMIX_SLOT_VALUE, post_value);
    let ghost r6 = *registry;
    let ghost o6 = set_guid(p@, BACKUP_POSTMIX_SLOT_VALUE@, post_value);
    proof {
        registry::lemma_advanced_trans(r0, r1, r2, o1, o2);
        registry::lemma_advanced_trans(r2, r3, r4, o3, o4);
        assert(o3 + o4 =~= seq![
            set_sz(p@, BACKUP_PREMIX_SLOT@, pre_name@),
            set_sz(p@, BACKUP_POSTMIX_SLOT@, post_name@),
        ]);
        registry::lemma_advanced_trans(r0, r2, r4, o1 + o2, o3 + o4);
        registry::lemma_advanced_trans(r0, r4, r5, o1 + o2 + (o3 + o4), o5);
        registry::lemma_advanced_trans(r0, r5, r6, o1 + o2 + (o3 + o4) + o5, o6);
    }
}

/// The endpoint identifiers that a record is given.
fn history_for_record(
    registry: &Registry,
    path: &str,
    device_guid: &str,
    id: &EndpointIdentity,
) -> (r: Vec<String>)
    requires
        path@ == child::record_path(device_guid@),
    ensures
        text::texts(r@) == record_history(registry@, device_guid@, id@),
{
    let stored = match RegKey::open(registry, Hkey::LocalMachine, path) {
        Some(key) => identity_from_key(&key).endpoint_history,
        None => Vec::new(),
    };
    let mut lists: Vec<Vec<String>> = Vec::new();
    let ghost kept = text::texts(stored@);
    lists.push(stored);
    lists.push(copy_texts(id.endpoint_history.as_slice()));
    let mut own: Vec<String> = Vec::new();
    own.push(device_guid.to_owned());
    lists.push(own);
    proof {
        assert(kept =~= identity::record_identity(
            registry@,
            Hkey::LocalMachine,
            path@,
        ).endpoint_history);
        assert(text::texts(own@) =~= seq![device_guid@]);
        assert(identity::text_lists(lists@) =~= seq![
            kept,
            id@.endpoint_history,
            seq![device_guid@],
        ]);
    }
    merge_endpoint_history(lists.as_slice())
}

/// Writes the record of an installation, and the switches and the version among
/// the effect properties.
pub fn write_child_apo_config(
    registry: &mut Registry,
    device_guid: &str,
    endpoint_path: &str,
    fx_path: &str,
    config: &InstallConfig,
    original_premix: Option<GUID>,
    original_postmix: Option<GUID>,
) -> (r: Result<(), VxApoError>)
    ensures
        r is Ok,
        registry::advanced(
            *old(registry),
            *final(registry),
            record_ops(
                old(registry)@,
                device_guid@,
                endpoint_path@,
                fx_path@,
                *config,
                original_premix,
                original_postmix,
            ),
        ),
{
    let ghost r0 = *registry;
    let info_key = join_path(CHILD_APO_PATH_ROOT, device_guid);
    proof {
        child::lemma_record_path(device_guid@);
    }
    let (root, path) = match split_hklm_path(info_key.as_str()) {
        Ok(p) => p,
        Err(e) => {
            return Err(e);
        },
    };
    let p = path.as_str();
    let pre_value = keep_child(
        true,
        read_slot(registry, fx_path, config.install_mode.premix_slot()),
    );
    let post_value = keep_child(
        true,
        read_slot(registry, fx_path, config.install_mode.postmix_slot()),
    );
    let id = read_endpoint_identity(registry, endpoint_path);
    let history = history_for_record(registry, p, device_guid, &id);

    registry.create_key(root, p);
    let ghost r1 = *registry;
    let ghost o1 = seq![OpView::CreateKey { root: Hkey::LocalMachine, path: p@ }];
    write_slot_record(
        registry,
        p,
        fx_path,
        config.install_mode,
        original_premix,
        original_postmix,
        pre_value,
        post_value,
        Ghost(r0@),
    );
    let ghost r2 = *registry;
    let ghost o2 = slot_record_ops(
        r0@,
        p@,
        fx_path@,
        config.install_mode,
        original_premix,
        original_postmix,
    );
    write_identity_values(registry, p, &id, history.as_slice());
    let ghost r3 = *registry;
    let ghost o3 = identity::identity_ops(p@, id@, text::texts(history@));
    write_switches(registry, fx_path, config);
    let ghost r4 = *registry;
    proof {
        registry::lemma_advanced_trans(r0, r1, r2, o1, o2);
        registry::lemma_advanced_trans(r0, r2, r3, o1 + o2, o3);
        registry::lemma_advanced_trans(r0, r3, r4, o1 + o2 + o3, switch_ops(fx_path@, *config));
    }
    Ok(())
}

/// The object of others that a record has under a name.
pub open spec fn backed_up(r: Seq<KeyView>, device_guid: Seq<char>, name: Seq<char>) -> Option<GUID> {
    kept_child(
        true,
        read::slot_value_of(
            registry::value_at(r, Hkey::LocalMachine, child::record_path(device_guid), name),
        ),
    )
}

/// Whether a record names a slot under a name.
pub open spec fn names_slot(
    r: Seq<KeyView>,
    device_guid: Seq<char>,
    name: Seq<char>,
    slot: ApoSlot,
) -> bool {
    registry::as_sz(
        registry::value_at(r, Hkey::LocalMachine, child::record_path(device_guid), name),
    ) matches Some(s) && text::eq_ci(s, types::slot_name(slot))
}

/// The object of others that a record has of a slot.
pub open spec fn backup_of(r: Seq<KeyView>, device_guid: Seq<char>, slot: ApoSlot) -> Option<GUID> {
    let pre = backed_up(r, device_guid, BACKUP_PREMIX_SLOT_VALUE@);
    if names_slot(r, device_guid, BACKUP_PREMIX_SLOT@, slot) && pre is Some {
        pre
    } else if names_slot(r, device_guid, BACKUP_POSTMIX_SLOT@, slot) {
        backed_up(r, device_guid, BACKUP_POSTMIX_SLOT_VALUE@)
    } else {
        None
    }
}

fn read_backed_up(registry: &Registry, path: &str, device_guid: &str, name: &str) -> (r: Option<GUID>)
    requires
        path@ == child::record_path(device_guid@),
    ensures
        r == backed_up(registry@, device_guid@, name@),
{
    keep_child(true, slot_value(registry.get(Hkey::LocalMachine, path, name)))
}

fn record_names(registry: &Registry, path: &str, device_guid: &str, name: &str, slot: ApoSlot) -> (r:
    bool)
    requires
        path@ == child::record_path(device_guid@),
    ensures
        r == names_slot(registry@, device_guid@, name@, slot),
{
    match registry.get_sz(Hkey::LocalMachine, path, name) {
        Some(s) => {
            let slot_name = slot.value_name();
            eq_ignore_case(s.as_str(), slot_name.as_str())
        },
        None => false,
    }
}

/// The object of others that a record has of a slot.
pub fn read_backup(registry: &Registry, device_guid: &str, slot: ApoSlot) -> (r: Option<GUID>)
    ensures
        r == backup_of(registry@, device_guid@, slot),
{
    let info_key = join_path(CHILD_APO_PATH_ROOT, device_guid);
    proof {
        child::lemma_record_path(device_guid@);
    }
    match split_hklm_path(info_key.as_str()) {
        Ok((_root, path)) => {
            let p = path.as_str();
            if record_names(registry, p, device_guid, BACKUP_PREMIX_SLOT, slot) {
                match read_backed_up(registry, p, device_guid, BACKUP_PREMIX_SLOT_VALUE) {
                    Some(g) => {
                        return Some(g);
                    },
                    None => {},
                }
            }
            if record_names(registry, p, device_guid, BACKUP_POSTMIX_SLOT, slot) {
                read_backed_up(registry, p, device_guid, BACKUP_POSTMIX_SLOT_VALUE)
            } else {
                None
            }
        },
        Err(_) => None,
    }
}

/// The hive and the rest of a full path; an error for a path without a hive, and
/// for every hive but the local machine's.
pub fn split_hklm_path(path: &str) -> (r: Result<(Hkey, String), VxApoError>)
    ensures
        match r {
            Ok(p) => child::split_hive(path@) == Some((p.0, p.1@)),
            Err(e) => child::split_hive(path@) is None && e@ == ErrorView::Internal(
                if path@.contains('\\') {
                    "仅支持 HKLM 根："@ + path@
                } else {
                    "路径无根键："@ + path@
                },
            ),
        },
{
    match split_path(path) {
        Some(p) => Ok(p),
        None => {
            let v = to_chars(path);
            let n = position_of(v.as_slice(), '\\', 0);
            if n < v.len() {
                assert(path@[n as int] == '\\');
                let m = concat2("仅支持 HKLM 根：", path);
                Err(VxApoError::internal(m.as_str()))
            } else {
                assert(!path@.contains('\\'));
                let m = concat2("路径无根键：", path);
                Err(VxApoError::internal(m.as_str()))
            }
        },
    }
}

// ---------------------------------------------------------------------------
// Registration of the objects
// ---------------------------------------------------------------------------
/// Where the library file that provides the objects is registered.
pub open spec fn binding_path() -> Seq<char> {
    "CLSID\\"@ + guid::guid_text(clsid_pre_mix()) + "\\InprocServer32"@
}

/// The library file that provides the objects, as registered; the registration
/// is refreshed from it.
pub fn registered_library(registry: &Registry) -> (r: Option<String>)
    ensures
        ({
            let v = registry::as_sz(
                registry::value_at(registry@, Hkey::ClassesRoot, binding_path(), ""@),
            );
            match r {
                Some(s) => v == Some(s@) && s@.len() > 0,
                None => v is None || v.unwrap().len() == 0,
            }
        }),
{
    let clsid = guid_to_string(&clsid_pre_mix());
    let path = concat3("CLSID\\", clsid.as_str(), "\\InprocServer32");
    match registry.get_sz(Hkey::ClassesRoot, path.as_str(), "") {
        Some(s) => if s.as_str().is_empty() {
            None
        } else {
            Some(s)
        },
        None => None,
    }
}

// ---------------------------------------------------------------------------
// Slots
// ---------------------------------------------------------------------------
/// Whether installing in a mode clears a slot: all but the mode's own two and,
/// outside the legacy mode, the one that the other modern mode uses after
/// mixing.
pub open spec fn clears(mode: InstallMode, slot: ApoSlot) -> bool {
    &&& slot != types::premix_of(mode)
    &&& slot != types::postmix_of(mode)
    &&& !(mode == InstallMode::SfxMfx && slot == ApoSlot::Efx)
    &&& !(mode == InstallMode::SfxEfx && slot == ApoSlot::Mfx)
}

/// The change that clears a slot.
pub open spec fn clear_op(fx_path: Seq<char>, slot: ApoSlot) -> OpView {
    OpView::DeleteValue { root: Hkey::LocalMachine, path: fx_path, name: types::slot_name(slot) }
}

/// The changes that clear those of some slots that a mode clears.
pub open spec fn clear_ops(fx_path: Seq<char>, mode: InstallMode, slots: Seq<ApoSlot>) -> Seq<OpView>
    decreases slots.len(),
{
    if slots.len() == 0 {
        Seq::empty()
    } else {
        clear_ops(fx_path, mode, slots.drop_last()) + identity::op_if(
            clears(mode, slots.last()),
            clear_op(fx_path, slots.last()),
        )
    }
}

/// Whether installing in a mode clears a slot.
pub fn clears_slot(mode: InstallMode, slot: ApoSlot) -> (r: bool)
    ensures
        r == clears(mode, slot),
{
    let pre = mode.premix_slot();
    let post = mode.postmix_slot();
    if slot == pre || slot == post {
        return false;
    }
    let keep = match mode {
        InstallMode::SfxMfx => slot == ApoSlot::Efx,
        InstallMode::SfxEfx => slot == ApoSlot::Mfx,
        InstallMode::LfxGfx => false,
    };
    !keep
}

/// Clears the slots that a mode clears.
pub fn delete_other_mode_slots(registry: &mut Registry, fx_path: &str, mode: InstallMode)
    ensures
        registry::advanced(
            *old(registry),
            *final(registry),
            clear_ops(fx_path@, mode, types::all_slots()),
        ),
{
    let ghost r0 = *registry;
    let mut i: usize = 0;
    proof {
        registry::lemma_advanced_refl(r0);
        read::law_slot_positions(ApoSlot::Lfx);
        assert(types::all_slots().take(0) =~= Seq::empty());
    }
    while i < 5
        invariant
            i <= 5,
            ApoSlot::ALL@ == types::all_slots(),
            registry::advanced(
                r0,
                *registry,
                clear_ops(fx_path@, mode, types::all_slots().take(i as int)),
            ),
        decreases 5 - i,
    {
        let slot = ApoSlot::ALL[i];
        let ghost t = types::all_slots().take(i + 1);
        let ghost done = clear_ops(fx_path@, mode, types::all_slots().take(i as int));
        let ghost rb = *registry;
        assert(t.drop_last() =~= types::all_slots().take(i as int));
        assert(t.last() == slot);
        proof {
            registry::lemma_advanced_refl(rb);
        }
        if clears_slot(mode, slot) {
            let name = slot.value_name();
            registry.delete_value(Hkey::LocalMachine, fx_path, name.as_str());
        }
        proof {
            registry::lemma_advanced_trans(
                r0,
                rb,
                *registry,
                done,
                identity::op_if(clears(mode, slot), clear_op(fx_path@, slot)),
            );
        }
        i += 1;
    }
    assert(types::all_slots().take(i as int) =~= types::all_slots());
}

/// Puts an object into a slot, as text.
pub fn write_apo_slot(registry: &mut Registry, fx_path: &str, slot: ApoSlot, g: GUID)
    ensures
        registry::advanced(
            *old(registry),
            *final(registry),
            seq![set_sz(fx_path@, types::slot_name(slot), guid::guid_text(g))],
        ),
{
    let name = slot.value_name();
    let value = guid_to_string(&g);
    registry.set_sz(Hkey::LocalMachine, fx_path, name.as_str(), value.as_str());
}

// ---------------------------------------------------------------------------
// Processing modes
// ---------------------------------------------------------------------------
/// The change that enters a slot into the default processing mode.
pub open spec fn processing_op(fx_path: Seq<char>, pid: nat) -> OpView {
    identity::op_set_multi(
        fx_path,
        PROCESSING_MODES_PREFIX@ + text::decimal(pid),
        seq![guid::guid_text(default_processing_mode())],
    )
}

/// The changes that enter the slots in use into the default processing mode; the
/// legacy slots have none.
pub open spec fn processing_ops(
    fx_path: Seq<char>,
    mode: InstallMode,
    install_premix: bool,
    install_postmix: bool,
) -> Seq<OpView> {
    if mode == InstallMode::LfxGfx {
        Seq::empty()
    } else {
        identity::op_if(
            install_premix,
            processing_op(fx_path, types::slot_pid(types::premix_of(mode)) as nat),
        ) + identity::op_if(
            install_postmix,
            processing_op(fx_path, types::slot_pid(types::postmix_of(mode)) as nat),
        )
    }
}

fn write_processing_mode(registry: &mut Registry, fx_path: &str, pid: u8)
    ensures
        registry::advanced(
            *old(registry),
            *final(registry),
            seq![processing_op(fx_path@, pid as nat)],
        ),
{
    let digits = decimal_text(pid as u64);
    let name = concat2(PROCESSING_MODES_PREFIX, digits.as_str());
    let mut list: Vec<String> = Vec::new();
    list.push(guid_to_string(&default_processing_mode()));
    assert(text::texts(list@) =~= seq![guid::guid_text(default_processing_mode())]);
    registry.set_value(Hkey::LocalMachine, fx_path, name.as_str(), RegValue::MultiSz(list));
}

/// Enters the slots in use into the default processing mode.
pub fn write_default_processmode(
    registry: &mut Registry,
    fx_path: &str,
    mode: InstallMode,
    install_premix: bool,
    install_postmix: bool,
)
    ensures
        registry::advanced(
            *old(registry),
            *final(registry),
            processing_ops(fx_path@, mode, install_premix, install_postmix),
        ),
{
    let ghost r0 = *registry;
    proof {
        registry::lemma_advanced_refl(r0);
    }
    if mode == InstallMode::LfxGfx {
        return;
    }
    let pre = mode.premix_slot().registry_pid();
    let post = mode.postmix_slot().registry_pid();
    if install_premix {
        write_processing_mode(registry, fx_path, pre);
    }
    let ghost r1 = *registry;
    let ghost o1 = identity::op_if(install_premix, processing_op(fx_path@, pre as nat));
    proof {
        registry::lemma_advanced_refl(r1);
    }
    if install_postmix {
        write_processing_mode(registry, fx_path, post);
    }
    proof {
        registry::lemma_advanced_trans(
            r0,
            r1,
            *registry,
            o1,
            identity::op_if(install_postmix, processing_op(fx_path@, post as nat)),
        );
    }
}

// ---------------------------------------------------------------------------
// Exported effect properties
// ---------------------------------------------------------------------------
/// A character that may stand in a file name.
pub open spec fn file_char(c: char) -> char {
    if c == '\\' || c == '/' || c == ':' || c == '*' || c == '?' || c == '"' || c == '<' || c == '>'
        || c == '|' {
        '_'
    } else {
        c
    }
}

/// A text as a file name: characters that may not stand in one are replaced.
pub open spec fn file_name(s: Seq<char>) -> Seq<char> {
    s.map_values(|c: char| file_char(c))
}

/// A text as a file name.
pub fn safe_file_name(s: &str) -> (r: String)
    ensures
        r@ == file_name(s@),
{
    let v = to_chars(s);
    let mut out = String::new();
    let mut i: usize = 0;
    while i < v.len()
        invariant
            i <= v.len(),
            v@ == s@,
            out@ == file_name(s@.take(i as int)),
        decreases v.len() - i,
    {
        let c = v[i];
        let bad = c == '\\' || c == '/' || c == ':' || c == '*' || c == '?' || c == '"' || c == '<'
            || c == '>' || c == '|';
        out.push(if bad { '_' } else { c });
        i += 1;
        assert(out@ =~= file_name(s@.take(i as int)));
    }
    assert(s@.take(i as int) =~= s@);
    out
}

/// The file to which an endpoint's effect properties are exported.
pub open spec fn backup_file(device_name: Seq<char>, connection_name: Seq<char>) -> Seq<char> {
    BACKUP_DIR@ + "\\"@ + file_name(device_name + "_"@ + connection_name + ".reg"@)
}

/// The file to which an endpoint's effect properties are exported.
pub fn backup_file_path(device_name: &str, connection_name: &str) -> (r: String)
    ensures
        r@ == backup_file(device_name@, connection_name@),
{
    let head = concat3(device_name, "_", connection_name);
    let full = concat2(head.as_str(), ".reg");
    let name = safe_file_name(full.as_str());
    concat3(BACKUP_DIR, "\\", name.as_str())
}

// ---------------------------------------------------------------------------
// What is promised
// ---------------------------------------------------------------------------
/// Installing in the legacy mode clears the three other slots; installing in one of the
/// others clears the two legacy ones, and leaves the third of its own kind.
pub proof fn law_cleared_slots(slot: ApoSlot)
    ensures
        clears(InstallMode::LfxGfx, slot) <==> slot is Sfx || slot is Mfx || slot is Efx,
        clears(InstallMode::SfxMfx, slot) <==> slot is Lfx || slot is Gfx,
        clears(InstallMode::SfxEfx, slot) <==> slot is Lfx || slot is Gfx,
{
}

proof fn lemma_cleared(
    r: Seq<KeyView>,
    fx_path: Seq<char>,
    mode: InstallMode,
    slots: Seq<ApoSlot>,
    slot: ApoSlot,
)
    ensures
        ({
            let r1 = registry::apply_all(r, clear_ops(fx_path, mode, slots));
            registry::value_at(r1, Hkey::LocalMachine, fx_path, types::slot_name(slot)) == if clears(
                mode,
                slot,
            ) && slots.contains(slot) {
                None
            } else {
                registry::value_at(r, Hkey::LocalMachine, fx_path, types::slot_name(slot))
            }
        }),
    decreases slots.len(),
{
    let h = Hkey::LocalMachine;
    let name = types::slot_name(slot);
    if slots.len() > 0 {
        let t = slots.drop_last();
        let last = slots.last();
        let a = clear_ops(fx_path, mode, t);
        let b = identity::op_if(clears(mode, last), clear_op(fx_path, last));
        let ra = registry::apply_all(r, a);
        lemma_cleared(r, fx_path, mode, t, slot);
        registry::lemma_apply_all_concat(r, a, b);
        if clears(mode, last) {
            assert(b.drop_last() =~= Seq::<OpView>::empty());
            assert(registry::apply_all(ra, b.drop_last()) == ra);
            registry::law_deleted_value_is_gone(
                ra,
                h,
                fx_path,
                types::slot_name(last),
                h,
                fx_path,
                name,
            );
            types::law_slot_names_distinct(last, slot);
            assert(text::eq_ci(name, name));
        } else {
            assert(b =~= Seq::empty());
        }
        assert(slots[slots.len() - 1] == last);
        if t.contains(slot) {
            let k = choose|k: int| 0 <= k < t.len() && t[k] == slot;
            assert(slots[k] == slot);
        }
        if slots.contains(slot) && last != slot {
            let k = choose|k: int| 0 <= k < slots.len() && slots[k] == slot;
            assert(t[k] == slot);
        }
    }
}

/// Clearing leaves a slot of the mode, and the third of its kind, as it was, and nothing
/// in the others.
pub proof fn law_clearing(r: Seq<KeyView>, fx_path: Seq<char>, mode: InstallMode, slot: ApoSlot)
    ensures
        ({
            let r1 = registry::apply_all(r, clear_ops(fx_path, mode, types::all_slots()));
            let before = registry::value_at(
                r,
                Hkey::LocalMachine,
                fx_path,
                types::slot_name(slot),
            );
            let after = registry::value_at(
                r1,
                Hkey::LocalMachine,
                fx_path,
                types::slot_name(slot),
            );
            let legacy = slot is Lfx || slot is Gfx;
            &&& legacy == (mode is LfxGfx) ==> after == before
            &&& legacy != (mode is LfxGfx) ==> after is None
        }),
{
    let all = types::all_slots();
    lemma_cleared(r, fx_path, mode, all, slot);
    law_cleared_slots(slot);
    assert(all[types::slot_index(slot) as int] == slot);
}

/// An object of others that a slot held is kept where that is asked for; one of this
/// library's never is, nor is anything from an empty slot.
pub proof fn law_kept_objects(asked: bool, v: SlotValue)
    ensures
        kept_child(asked, v) matches Some(g) ==> asked && v == SlotValue::Guid(g) && g
            != clsid_pre_mix() && g != crate::object::vx_reg_props::clsid_post_mix(),
        v matches SlotValue::Guid(g) ==> (asked && g != clsid_pre_mix() && g
            != crate::object::vx_reg_props::clsid_post_mix() ==> kept_child(asked, v) == Some(g)),
{
}

/// The slots in use, and no others, are entered into the default processing mode; those of
/// the legacy mode are not.
pub proof fn law_processing_modes(
    fx_path: Seq<char>,
    mode: InstallMode,
    install_premix: bool,
    install_postmix: bool,
)
    ensures
        ({
            let ops = processing_ops(fx_path, mode, install_premix, install_postmix);
            &&& mode is LfxGfx ==> ops.len() == 0
            &&& !(mode is LfxGfx) && install_premix ==> ops.contains(processing_op(fx_path, 5))
            &&& mode is SfxMfx && install_postmix ==> ops.contains(processing_op(fx_path, 6))
            &&& mode is SfxEfx && install_postmix ==> ops.contains(processing_op(fx_path, 7))
            &&& ops.len() <= if install_premix {
                1int
            } else {
                0
            } + if install_postmix {
                1int
            } else {
                0
            }
        }),
{
    let ops = processing_ops(fx_path, mode, install_premix, install_postmix);
    if !(mode is LfxGfx) {
        if install_premix {
            assert(ops[0] == processing_op(fx_path, 5));
        }
        if install_postmix {
            assert(ops[ops.len() - 1] == processing_op(
                fx_path,
                types::slot_pid(types::postmix_of(mode)) as nat,
            ));
        }
    }
}

} // verus!
