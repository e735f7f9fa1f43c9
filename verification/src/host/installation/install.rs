//! Installing on an endpoint and removing an installation.

use vstd::prelude::*;
use crate::error::{ErrorView, VxApoError};
use crate::guid;
use crate::guid::{format_guid, guid_from_bytes, guid_to_bytes, GUID};
use crate::install::device::identity;
use crate::install::device::info;
use crate::install::device::info::{CAPTURE_PATH, DISABLE_ENHANCEMENTS_VALUE, RENDER_PATH};
use crate::install::device::slots::read;
use crate::install::device::slots::types;
use crate::install::device::slots::{
    read_slot_value, ApoSlot, InstallMode, SlotValue, FX_PROPERTIES_KEY, INSTALL_VERSION,
};
use crate::install::selector::operation::helpers::{
    default_processing_mode, ALLOW_SILENT_BUFFER_VALUE, AUTO_ADJUST_VALUE, BACKUP_DIR,
    VERSION_VALUE,
};
use crate::installation::rollback;
use crate::installation::rollback::{
    backup_fx_properties, ActionView, RollbackAction, Transaction,
};
use crate::object::vx_reg_props;
use crate::object::vx_reg_props::{clsid_post_mix, clsid_pre_mix, own_clsid};
use crate::registry;
use crate::registry::{
    join_path, Hkey, KeyView, OpView, RegKey, RegValue, Registry, ValueView,
};
use crate::undo::snapshot;

verus! {

/// The key below the effect properties for children.
pub const CHILD_APO_KEYS: &'static str = "ChildApoKeys";

/// Effect property: the object that is kept as a child.
pub const CHILD_GUID_VALUE: &'static str = "childGuid";

/// Effect property: the default processing mode.
pub const DEFAULT_PROCESSMODE_VALUE: &'static str = "KSDATAFORMAT_SUBTYPE_DEFAULT_PROCESSMODE";

/// How to install.
#[derive(Clone, Copy, Debug, PartialEq, Eq, Structural)]
pub struct InstallConfig {
    pub install_premix: bool,
    pub install_postmix: bool,
    /// Which two slots are used.
    pub install_mode: InstallMode,
    /// Whether the object displaced before mixing is kept as a child.
    pub use_original_apo_premix: bool,
    /// Whether the object displaced after mixing is kept as a child.
    pub use_original_apo_postmix: bool,
    /// Whether silent buffers may be passed through.
    pub allow_silent_buffer: bool,
}

impl InstallConfig {
    /// The configuration used where nothing else is asked for.
    pub fn default_config() -> (r: InstallConfig)
        ensures
            r == (InstallConfig {
                install_premix: true,
                install_postmix: true,
                install_mode: InstallMode::SfxEfx,
                use_original_apo_premix: false,
                use_original_apo_postmix: false,
                allow_silent_buffer: true,
            }),
    {
        InstallConfig {
            install_premix: true,
            install_postmix: true,
            install_mode: InstallMode::default_mode(),
            use_original_apo_premix: false,
            use_original_apo_postmix: false,
            allow_silent_buffer: true,
        }
    }
}

// ---------------------------------------------------------------------------
// Model
// ---------------------------------------------------------------------------
/// The effect properties of the endpoint at a place.
pub open spec fn fx_of(endpoint_path: Seq<char>) -> Seq<char> {
    registry::join(endpoint_path, FX_PROPERTIES_KEY@)
}

/// The key for children of the endpoint at a place.
pub open spec fn child_keys_of(endpoint_path: Seq<char>) -> Seq<char> {
    registry::join(fx_of(endpoint_path), CHILD_APO_KEYS@)
}

/// What a slot holds, given its registry value: at least the 16 bytes of a class
/// identifier, or no value; a value that cannot be read as bytes counts as no key.
pub open spec fn binary_slot(v: Option<ValueView>) -> SlotValue {
    match v {
        Some(ValueView::Binary(b)) => match guid::bytes_guid(b) {
            Some(g) => SlotValue::Guid(g),
            None => SlotValue::NoValue,
        },
        _ => SlotValue::NoKey,
    }
}

/// What a slot of the effect properties at a place holds.
pub open spec fn slot_at(r: Seq<KeyView>, fx_path: Seq<char>, slot: ApoSlot) -> SlotValue {
    binary_slot(registry::value_at(r, Hkey::LocalMachine, fx_path, types::slot_name(slot)))
}

/// Whether the effect properties are made by the installation: there are none at
/// the place.
pub open spec fn is_new(r: Seq<KeyView>, fx_path: Seq<char>) -> bool {
    !registry::has_key(r, Hkey::LocalMachine, fx_path)
}

/// The displaced object that is kept as a child: what the slot held, where it is
/// asked for.
pub open spec fn kept(asked: bool, v: SlotValue) -> Option<GUID> {
    if asked {
        types::slot_guid(v)
    } else {
        None
    }
}

/// The displaced object that is kept as a child: the one before mixing, else the
/// one after it.
pub open spec fn kept_child(r: Seq<KeyView>, fx_path: Seq<char>, config: InstallConfig) -> Option<GUID> {
    let pre = kept(
        config.use_original_apo_premix,
        slot_at(r, fx_path, types::premix_of(config.install_mode)),
    );
    if pre is Some {
        pre
    } else {
        kept(
            config.use_original_apo_postmix,
            slot_at(r, fx_path, types::postmix_of(config.install_mode)),
        )
    }
}

/// The change that sets a text among the effect properties at a place.
pub open spec fn set_sz(root: Hkey, path: Seq<char>, name: Seq<char>, value: Seq<char>) -> OpView {
    registry::op_set_sz(root, path, name, value)
}

/// The change that sets a number among the effect properties at a place.
pub open spec fn set_dword(root: Hkey, path: Seq<char>, name: Seq<char>, value: u32) -> OpView {
    OpView::SetValue { root, path, name, value: ValueView::Dword(value) }
}

/// The changes that write what an object needs to know.
pub open spec fn config_ops(
    root: Hkey,
    path: Seq<char>,
    allow_silent_buffer: bool,
    child: Option<GUID>,
) -> Seq<OpView> {
    (match child {
        Some(g) => seq![set_sz(root, path, CHILD_GUID_VALUE@, guid::guid_text(g))],
        None => Seq::empty(),
    }) + seq![
        set_dword(
            root,
            path,
            ALLOW_SILENT_BUFFER_VALUE@,
            if allow_silent_buffer {
                1
            } else {
                0
            },
        ),
        set_dword(root, path, AUTO_ADJUST_VALUE@, 0),
        set_sz(root, path, VERSION_VALUE@, INSTALL_VERSION@),
    ]
}

/// Whether installing in a mode clears a slot: all but the mode's own two.
pub open spec fn clears(mode: InstallMode, slot: ApoSlot) -> bool {
    slot != types::premix_of(mode) && slot != types::postmix_of(mode)
}

/// The change that clears a slot.
pub open spec fn clear_op(root: Hkey, path: Seq<char>, slot: ApoSlot) -> OpView {
    OpView::DeleteValue { root, path, name: types::slot_name(slot) }
}

/// The changes that clear those of some slots that a mode clears.
pub open spec fn clear_ops(root: Hkey, path: Seq<char>, mode: InstallMode, slots: Seq<ApoSlot>) -> Seq<
    OpView,
>
    decreases slots.len(),
{
    if slots.len() == 0 {
        Seq::empty()
    } else {
        clear_ops(root, path, mode, slots.drop_last()) + identity::op_if(
            clears(mode, slots.last()),
            clear_op(root, path, slots.last()),
        )
    }
}

/// The change that puts an object into a slot, as bytes.
pub open spec fn fill_op(root: Hkey, path: Seq<char>, slot: ApoSlot, g: GUID) -> OpView {
    OpView::SetValue {
        root,
        path,
        name: types::slot_name(slot),
        value: ValueView::Binary(guid::guid_bytes(g)),
    }
}

/// The change that sets the default processing mode.
pub open spec fn processmode_op(root: Hkey, path: Seq<char>) -> OpView {
    set_sz(root, path, DEFAULT_PROCESSMODE_VALUE@, guid::guid_text(default_processing_mode()))
}

/// The change that switches enhancements on.
pub open spec fn enable_op(path: Seq<char>) -> OpView {
    OpView::DeleteValue { root: Hkey::LocalMachine, path, name: DISABLE_ENHANCEMENTS_VALUE@ }
}

/// The changes that make the keys of an installation.
pub open spec fn key_ops(endpoint_path: Seq<char>) -> Seq<OpView> {
    seq![
        OpView::CreateKey { root: Hkey::LocalMachine, path: fx_of(endpoint_path) },
        OpView::CreateKey { root: Hkey::LocalMachine, path: child_keys_of(endpoint_path) },
    ]
}

/// The changes that put the objects into their slots.
pub open spec fn object_ops(fx_path: Seq<char>, config: InstallConfig) -> Seq<OpView> {
    identity::op_if(
        config.install_premix,
        fill_op(
            Hkey::LocalMachine,
            fx_path,
            types::premix_of(config.install_mode),
            clsid_pre_mix(),
        ),
    ) + identity::op_if(
        config.install_postmix,
        fill_op(
            Hkey::LocalMachine,
            fx_path,
            types::postmix_of(config.install_mode),
            clsid_post_mix(),
        ),
    )
}

/// The changes of an installation.
pub open spec fn install_ops(
    r: Seq<KeyView>,
    endpoint_path: Seq<char>,
    config: InstallConfig,
) -> Seq<OpView> {
    let fx = fx_of(endpoint_path);
    let h = Hkey::LocalMachine;
    key_ops(endpoint_path) + config_ops(
        h,
        fx,
        config.allow_silent_buffer,
        kept_child(r, fx, config),
    ) + clear_ops(h, fx, config.install_mode, types::all_slots()) + object_ops(fx, config) + seq![
        processmode_op(h, fx),
        enable_op(fx),
    ]
}

/// Whether a slot of the effect properties at a place holds one of this library's
/// own objects.
pub open spec fn holds_own(r: Seq<KeyView>, fx_path: Seq<char>, slot: ApoSlot) -> bool {
    read::slot_value_of(
        registry::value_at(r, Hkey::LocalMachine, fx_path, types::slot_name(slot)),
    ) matches SlotValue::Guid(g) && vx_reg_props::is_own_clsid(g)
}

/// The changes that clear those of some slots that hold one of this library's own
/// objects.
pub open spec fn vacate_ops(r: Seq<KeyView>, fx_path: Seq<char>, slots: Seq<ApoSlot>) -> Seq<OpView>
    decreases slots.len(),
{
    if slots.len() == 0 {
        Seq::empty()
    } else {
        vacate_ops(r, fx_path, slots.drop_last()) + identity::op_if(
            holds_own(r, fx_path, slots.last()),
            clear_op(Hkey::LocalMachine, fx_path, slots.last()),
        )
    }
}

/// The change that deletes one of the effect properties at a place.
pub open spec fn drop_op(fx_path: Seq<char>, name: Seq<char>) -> OpView {
    OpView::DeleteValue { root: Hkey::LocalMachine, path: fx_path, name }
}

/// The changes that delete what an installation wrote besides the slots.
pub open spec fn tidy_ops(fx_path: Seq<char>) -> Seq<OpView> {
    seq![
        drop_op(fx_path, CHILD_GUID_VALUE@),
        drop_op(fx_path, ALLOW_SILENT_BUFFER_VALUE@),
        drop_op(fx_path, AUTO_ADJUST_VALUE@),
        drop_op(fx_path, VERSION_VALUE@),
        drop_op(fx_path, DISABLE_ENHANCEMENTS_VALUE@),
    ]
}

/// The changes that remove an installation.
pub open spec fn uninstall_ops(r: Seq<KeyView>, endpoint_path: Seq<char>) -> Seq<OpView> {
    let fx = fx_of(endpoint_path);
    seq![OpView::CreateKey { root: Hkey::LocalMachine, path: fx }] + vacate_ops(
        r,
        fx,
        types::all_slots(),
    ) + tidy_ops(fx)
}

// ---------------------------------------------------------------------------
// Steps
// ---------------------------------------------------------------------------
/// The place of an endpoint, and whether it plays back or records; an error when
/// there is no such endpoint.
pub fn find_endpoint_path(registry: &Registry, device_guid: &str) -> (r: Result<
    (String, &'static str),
    VxApoError,
>)
    ensures
        match r {
            Ok((p, flow)) => {
                &&& info::endpoint_path(registry@, device_guid@) == Some(p@)
                &&& flow@ == (if p@ == registry::join(RENDER_PATH@, device_guid@) {
                    "Render"@
                } else {
                    "Capture"@
                })
            },
            Err(e) => info::endpoint_path(registry@, device_guid@) is None && e@
                == ErrorView::DeviceNotFound(device_guid@),
        },
{
    let render = join_path(RENDER_PATH, device_guid);
    if registry.holds_key(Hkey::LocalMachine, render.as_str()) {
        return Ok((render, "Render"));
    }
    let capture = join_path(CAPTURE_PATH, device_guid);
    if registry.holds_key(Hkey::LocalMachine, capture.as_str()) {
        proof {
            lemma_paths_differ(device_guid@);
        }
        return Ok((capture, "Capture"));
    }
    Err(VxApoError::device_not_found(device_guid))
}

proof fn lemma_paths_differ(device_guid: Seq<char>)
    ensures
        registry::join(RENDER_PATH@, device_guid) != registry::join(CAPTURE_PATH@, device_guid),
{
    reveal_strlit("SOFTWARE\\Microsoft\\Windows\\CurrentVersion\\MMDevices\\Audio\\Render");
    reveal_strlit("SOFTWARE\\Microsoft\\Windows\\CurrentVersion\\MMDevices\\Audio\\Capture");
    let a = registry::join(RENDER_PATH@, device_guid);
    let b = registry::join(CAPTURE_PATH@, device_guid);
    assert(a.len() != b.len());
}

/// Makes sure of the effect properties; the result says whether this made them. Then
/// they are deleted when the installation is undone.
pub fn ensure_fx_properties(registry: &mut Registry, fx_path: &str, tx: &mut Transaction) -> (new:
    bool)
    ensures
        new == is_new(old(registry)@, fx_path@),
        registry::advanced(
            *old(registry),
            *final(registry),
            seq![OpView::CreateKey { root: Hkey::LocalMachine, path: fx_path@ }],
        ),
        final(tx).recorded() == (if new {
            old(tx).recorded().push(ActionView::DeleteKey(fx_path@))
        } else {
            old(tx).recorded()
        }),
        final(tx).committed == old(tx).committed,
{
    let new = !registry.holds_key(Hkey::LocalMachine, fx_path);
    registry.create_key(Hkey::LocalMachine, fx_path);
    if new {
        tx.record(RollbackAction::DeleteKey(fx_path.to_owned()));
    }
    new
}

/// What a slot of the effect properties at a place holds; no key where it cannot be
/// read.
pub fn read_slot_value_safe(registry: &Registry, fx_path: &str, slot: ApoSlot) -> (r: SlotValue)
    ensures
        r == slot_at(registry@, fx_path@, slot),
{
    let name = slot.value_name();
    match registry.get(Hkey::LocalMachine, fx_path, name.as_str()) {
        Some(RegValue::Binary(raw)) => match guid_from_bytes(raw.as_slice()) {
            Some(g) => SlotValue::Guid(g),
            None => SlotValue::NoValue,
        },
        _ => SlotValue::NoKey,
    }
}

/// The objects that are kept as children.
pub fn read_original_apo_guids(registry: &Registry, fx_path: &str, config: &InstallConfig) -> (r: (
    Option<GUID>,
    Option<GUID>,
))
    ensures
        r.0 == kept(
            config.use_original_apo_premix,
            slot_at(registry@, fx_path@, types::premix_of(config.install_mode)),
        ),
        r.1 == kept(
            config.use_original_apo_postmix,
            slot_at(registry@, fx_path@, types::postmix_of(config.install_mode)),
        ),
{
    let premix = if config.use_original_apo_premix {
        read_slot_value_safe(registry, fx_path, config.install_mode.premix_slot()).as_guid()
    } else {
        None
    };
    let postmix = if config.use_original_apo_postmix {
        read_slot_value_safe(registry, fx_path, config.install_mode.postmix_slot()).as_guid()
    } else {
        None
    };
    (premix, postmix)
}

/// Writes what an object needs to know.
pub fn write_child_apo_config(
    registry: &mut Registry,
    root: Hkey,
    path: &str,
    config: &InstallConfig,
    original_premix: Option<GUID>,
    original_postmix: Option<GUID>,
)
    ensures
        registry::advanced(
            *old(registry),
            *final(registry),
            config_ops(
                root,
                path@,
                config.allow_silent_buffer,
                if original_premix is Some {
                    original_premix
                } else {
                    original_postmix
                },
            ),
        ),
{
    let ghost r0 = *registry;
    let child = match original_premix {
        Some(g) => Some(g),
        None => original_postmix,
    };
    let ghost ops = config_ops(root, path@, config.allow_silent_buffer, child);
    let ghost a = ops.take(ops.len() - 3);
    proof {
        registry::lemma_advanced_refl(r0);
    }
    match child {
        Some(g) => {
            let value = format_guid(&g);
            registry.set_sz(root, path, CHILD_GUID_VALUE, value.as_str());
            assert(a =~= seq![set_sz(root, path@, CHILD_GUID_VALUE@, guid::guid_text(g))]);
        },
        None => {
            assert(a =~= Seq::empty());
        },
    }
    let ghost r1 = *registry;
    let allow: u32 = if config.allow_silent_buffer {
        1
    } else {
        0
    };
    registry.set_value(root, path, ALLOW_SILENT_BUFFER_VALUE, RegValue::Dword(allow));
    let ghost r2 = *registry;
    registry.set_value(root, path, AUTO_ADJUST_VALUE, RegValue::Dword(0));
    let ghost r3 = *registry;
    registry.set_sz(root, path, VERSION_VALUE, INSTALL_VERSION);
    proof {
        let n = a.len() as int;
        registry::lemma_advanced_trans(r0, r1, r2, a, seq![ops[n]]);
        registry::lemma_advanced_trans(r0, r2, r3, a + seq![ops[n]], seq![ops[n + 1]]);
        registry::lemma_advanced_trans(
            r0,
            r3,
            *registry,
            a + seq![ops[n]] + seq![ops[n + 1]],
            seq![ops[n + 2]],
        );
        assert(a + seq![ops[n]] + seq![ops[n + 1]] + seq![ops[n + 2]] =~= ops);
    }
}

/// Clears the slots that a mode does not use.
pub fn delete_other_mode_slots(registry: &mut Registry, root: Hkey, path: &str, mode: InstallMode)
    ensures
        registry::advanced(
            *old(registry),
            *final(registry),
            clear_ops(root, path@, mode, types::all_slots()),
        ),
{
    let ghost r0 = *registry;
    let mut i: usize = 0;
    proof {
        registry::lemma_advanced_refl(r0);
        read::law_slot_positions(ApoSlot::Lfx);
        assert(types::all_slots().take(0) =~= Seq::empty());
    }
    while i < 5
        invariant
            i <= 5,
            ApoSlot::ALL@ == types::all_slots(),
            registry::advanced(
                r0,
                *registry,
                clear_ops(root, path@, mode, types::all_slots().take(i as int)),
            ),
        decreases 5 - i,
    {
        let slot = ApoSlot::ALL[i];
        let ghost t = types::all_slots().take(i + 1);
        let ghost done = clear_ops(root, path@, mode, types::all_slots().take(i as int));
        let ghost rb = *registry;
        assert(t.drop_last() =~= types::all_slots().take(i as int));
        assert(t.last() == slot);
        proof {
            registry::lemma_advanced_refl(rb);
        }
        if slot != mode.premix_slot() && slot != mode.postmix_slot() {
            let name = slot.value_name();
            registry.delete_value(root, path, name.as_str());
        }
        proof {
            registry::lemma_advanced_trans(
                r0,
                rb,
                *registry,
                done,
                identity::op_if(clears(mode, slot), clear_op(root, path@, slot)),
            );
        }
        i += 1;
    }
    assert(types::all_slots().take(i as int) =~= types::all_slots());
}

/// Puts an object into a slot, as bytes.
pub fn write_apo_slot(registry: &mut Registry, root: Hkey, path: &str, slot: ApoSlot, g: GUID)
    ensures
        registry::advanced(*old(registry), *final(registry), seq![fill_op(root, path@, slot, g)]),
{
    let name = slot.value_name();
    let raw = guid_to_bytes(g);
    let bytes = registry::copy_bytes(raw.as_slice());
    registry.set_value(root, path, name.as_str(), RegValue::Binary(bytes));
}

/// Sets the default processing mode.
pub fn write_default_processmode(registry: &mut Registry, root: Hkey, path: &str)
    ensures
        registry::advanced(*old(registry), *final(registry), seq![processmode_op(root, path@)]),
{
    let value = format_guid(&default_processing_mode());
    registry.set_sz(root, path, DEFAULT_PROCESSMODE_VALUE, value.as_str());
}

fn write_objects(registry: &mut Registry, fx_path: &str, config: &InstallConfig)
    ensures
        registry::advanced(*old(registry), *final(registry), object_ops(fx_path@, *config)),
{
    let ghost r0 = *registry;
    proof {
        registry::lemma_advanced_refl(r0);
    }
    let pre = config.install_mode.premix_slot();
    let post = config.install_mode.postmix_slot();
    if config.install_premix {
        write_apo_slot(registry, Hkey::LocalMachine, fx_path, pre, clsid_pre_mix());
    }
    let ghost r1 = *registry;
    proof {
        registry::lemma_advanced_refl(r1);
    }
    if config.install_postmix {
        write_apo_slot(registry, Hkey::LocalMachine, fx_path, post, clsid_post_mix());
    }
    proof {
        registry::lemma_advanced_trans(
            r0,
            r1,
            *registry,
            identity::op_if(
                config.install_premix,
                fill_op(Hkey::LocalMachine, fx_path@, pre, clsid_pre_mix()),
            ),
            identity::op_if(
                config.install_postmix,
                fill_op(Hkey::LocalMachine, fx_path@, post, clsid_post_mix()),
            ),
        );
    }
}

/// Making keys changes no value of the effect properties.
proof fn lemma_keys_keep_values(r: Seq<KeyView>, ops: Seq<OpView>, fx_path: Seq<char>, name: Seq<char>)
    requires
        forall|i: int| 0 <= i < ops.len() ==> (#[trigger] ops[i]) is CreateKey,
    ensures
        registry::value_at(registry::apply_all(r, ops), Hkey::LocalMachine, fx_path, name)
            == registry::value_at(r, Hkey::LocalMachine, fx_path, name),
{
    registry::law_untouched_value_stays(r, ops, Hkey::LocalMachine, fx_path, name);
}

/// Making keys changes no slot.
proof fn lemma_keys_keep_slots(r: Seq<KeyView>, ops: Seq<OpView>, fx_path: Seq<char>, mode: InstallMode)
    requires
        forall|i: int| 0 <= i < ops.len() ==> (#[trigger] ops[i]) is CreateKey,
    ensures
        ({
            let after = registry::apply_all(r, ops);
            let pre = types::premix_of(mode);
            let post = types::postmix_of(mode);
            slot_at(after, fx_path, pre) == slot_at(r, fx_path, pre) && slot_at(
                after,
                fx_path,
                post,
            ) == slot_at(r, fx_path, post)
        }),
{
    lemma_keys_keep_values(r, ops, fx_path, types::slot_name(types::premix_of(mode)));
    lemma_keys_keep_values(r, ops, fx_path, types::slot_name(types::postmix_of(mode)));
}

/// What undoes the making of the effect properties.
proof fn lemma_made(r: Seq<KeyView>, fx_path: Seq<char>)
    ensures
        rollback::actions_for(
            r,
            seq![OpView::CreateKey { root: Hkey::LocalMachine, path: fx_path }],
        ) == (if is_new(r, fx_path) {
            seq![ActionView::DeleteKey(fx_path)]
        } else {
            Seq::empty()
        }),
{
    let op = OpView::CreateKey { root: Hkey::LocalMachine, path: fx_path };
    let ops = seq![op];
    assert(ops.drop_last() =~= Seq::<OpView>::empty());
    assert(registry::apply_all(r, ops.drop_last()) == r);
    assert(rollback::actions_for(r, ops.drop_last()) == Seq::<ActionView>::empty());
    let u = crate::undo::undo_of(r, op).map_values(|o: OpView| rollback::action_of(o));
    assert(rollback::actions_for(r, ops) == Seq::<ActionView>::empty() + u);
    if is_new(r, fx_path) {
        assert(Seq::<ActionView>::empty() + u =~= seq![ActionView::DeleteKey(fx_path)]);
    } else {
        assert(Seq::<ActionView>::empty() + u =~= Seq::empty());
    }
}

/// The changes of an installation once the effect properties are there.
spec fn rest_ops(r: Seq<KeyView>, endpoint_path: Seq<char>, config: InstallConfig) -> Seq<OpView> {
    let fx = fx_of(endpoint_path);
    let h = Hkey::LocalMachine;
    seq![key_ops(endpoint_path)[1]] + config_ops(
        h,
        fx,
        config.allow_silent_buffer,
        kept_child(r, fx, config),
    ) + clear_ops(h, fx, config.install_mode, types::all_slots()) + object_ops(fx, config) + seq![
        processmode_op(h, fx),
        enable_op(fx),
    ]
}

proof fn lemma_regroup(
    r: Seq<KeyView>,
    r1: Seq<KeyView>,
    endpoint_path: Seq<char>,
    config: InstallConfig,
)
    requires
        kept_child(r, fx_of(endpoint_path), config) == kept_child(
            r1,
            fx_of(endpoint_path),
            config,
        ),
    ensures
        install_ops(r, endpoint_path, config) == seq![key_ops(endpoint_path)[0]] + rest_ops(
            r1,
            endpoint_path,
            config,
        ),
{
    assert(install_ops(r, endpoint_path, config) =~= seq![key_ops(endpoint_path)[0]] + rest_ops(
        r1,
        endpoint_path,
        config,
    ));
}

fn write_rest(registry: &mut Registry, endpoint_path: &str, fx_path: &str, config: &InstallConfig)
    requires
        fx_path@ == fx_of(endpoint_path@),
    ensures
        registry::advanced(
            *old(registry),
            *final(registry),
            rest_ops(old(registry)@, endpoint_path@, *config),
        ),
{
    let h = Hkey::LocalMachine;
    let ghost fx = fx_path@;
    let ghost r1 = *registry;
    let (premix, postmix) = read_original_apo_guids(registry, fx_path, config);
    let child_path = join_path(fx_path, CHILD_APO_KEYS);
    registry.create_key(h, child_path.as_str());
    let ghost r2 = *registry;
    write_child_apo_config(registry, h, fx_path, config, premix, postmix);
    let ghost r3 = *registry;
    delete_other_mode_slots(registry, h, fx_path, config.install_mode);
    let ghost r4 = *registry;
    write_objects(registry, fx_path, config);
    let ghost r5 = *registry;
    write_default_processmode(registry, h, fx_path);
    let ghost r6 = *registry;
    registry.delete_value(h, fx_path, DISABLE_ENHANCEMENTS_VALUE);
    proof {
        let k = seq![key_ops(endpoint_path@)[1]];
        let a = config_ops(h, fx, config.allow_silent_buffer, kept_child(r1@, fx, *config));
        let b = clear_ops(h, fx, config.install_mode, types::all_slots());
        let c = object_ops(fx, *config);
        registry::lemma_advanced_trans(r1, r2, r3, k, a);
        registry::lemma_advanced_trans(r1, r3, r4, k + a, b);
        registry::lemma_advanced_trans(r1, r4, r5, k + a + b, c);
        registry::lemma_advanced_trans(r5, r6, *registry, seq![processmode_op(h, fx)], seq![
            enable_op(fx),
        ]);
        assert(seq![processmode_op(h, fx)] + seq![enable_op(fx)] =~= seq![
            processmode_op(h, fx),
            enable_op(fx),
        ]);
        registry::lemma_advanced_trans(r1, r5, *registry, k + a + b + c, seq![
            processmode_op(h, fx),
            enable_op(fx),
        ]);
    }
}

/// Installs on an endpoint, and records what undoes it; the caller makes the
/// changes final once they are all made. The result is the file to which the
/// effect properties are exported before, where there are any.
pub fn install_endpoint(
    registry: &mut Registry,
    tx: &mut Transaction,
    device_guid: &str,
    device_name: &str,
    connection_name: &str,
    config: &InstallConfig,
) -> (r: Result<Option<String>, VxApoError>)
    ensures
        final(tx).committed == old(tx).committed,
        match info::endpoint_path(old(registry)@, device_guid@) {
            Some(p) => {
                &&& r matches Ok(file)
                &&& match file {
                    Some(f) => !is_new(old(registry)@, fx_of(p)) && f@ == rollback::backup_path(
                        device_name@,
                        connection_name@,
                        BACKUP_DIR@,
                    ),
                    None => is_new(old(registry)@, fx_of(p)),
                }
                &&& registry::advanced(
                    *old(registry),
                    *final(registry),
                    install_ops(old(registry)@, p, *config),
                )
                &&& final(tx).recorded() == old(tx).recorded() + rollback::actions_for(
                    old(registry)@,
                    install_ops(old(registry)@, p, *config),
                )
            },
            None => {
                &&& r matches Err(e)
                &&& e@ == ErrorView::DeviceNotFound(device_guid@)
                &&& *final(registry) == *old(registry)
                &&& final(tx).recorded() == old(tx).recorded()
            },
        },
{
    let ghost r0 = *registry;
    let ghost tx0 = tx.recorded();
    let endpoint_path = match find_endpoint_path(registry, device_guid) {
        Ok((p, _flow)) => p,
        Err(e) => {
            return Err(e);
        },
    };
    let fx_path = join_path(endpoint_path.as_str(), FX_PROPERTIES_KEY);
    let ghost fx = fx_path@;
    let new = ensure_fx_properties(registry, fx_path.as_str(), tx);
    let ghost r1 = *registry;
    let ghost keys = key_ops(endpoint_path@);
    proof {
        assert(forall|i: int| 0 <= i < keys.len() ==> (#[trigger] keys[i]) is CreateKey);
        lemma_keys_keep_slots(r0@, seq![keys[0]], fx, config.install_mode);
    }
    let file = if new {
        None
    } else {
        Some(backup_fx_properties(device_name, connection_name, BACKUP_DIR))
    };
    let before = snapshot(registry);
    let start: usize = registry.journal.len();
    write_rest(registry, endpoint_path.as_str(), fx_path.as_str(), config);
    let ghost made = seq![keys[0]];
    let ghost rest = rest_ops(r1@, endpoint_path@, *config);
    proof {
        lemma_regroup(r0@, r1@, endpoint_path@, *config);
        registry::lemma_advanced_trans(r0, r1, *registry, made, rest);
        assert(r1.log().len() == start);
        assert(registry.log().len() == registry.journal@.len());
        assert(registry.log().skip(start as int) =~= rest);
        rollback::lemma_actions_concat(r0@, made, rest);
        lemma_made(r0@, fx);
    }
    let ghost tx1 = tx.recorded();
    tx.record_changes(before, &registry.journal, start);
    proof {
        let ops = install_ops(r0@, endpoint_path@, *config);
        assert(tx1 =~= tx0 + rollback::actions_for(r0@, made));
        assert(tx.recorded() =~= tx0 + rollback::actions_for(r0@, ops));
    }
    Ok(file)
}

/// Whether a slot of the effect properties at a place holds one of this library's
/// own objects.
fn slot_holds_own(registry: &Registry, fx_path: &str, slot: ApoSlot) -> (r: bool)
    ensures
        r == holds_own(registry@, fx_path@, slot),
{
    match RegKey::open(registry, Hkey::LocalMachine, fx_path) {
        Some(key) => match read_slot_value(&key, slot) {
            SlotValue::Guid(g) => own_clsid(&g),
            _ => false,
        },
        None => false,
    }
}

/// Clearing slots leaves the slots that come later as they are.
pub proof fn lemma_vacate_spares(
    r: Seq<KeyView>,
    fx_path: Seq<char>,
    slots: Seq<ApoSlot>,
    slot: ApoSlot,
)
    requires
        !slots.contains(slot),
    ensures
        registry::untouched(
            vacate_ops(r, fx_path, slots),
            Hkey::LocalMachine,
            fx_path,
            types::slot_name(slot),
        ),
    decreases slots.len(),
{
    if slots.len() > 0 {
        let front = slots.drop_last();
        assert forall|i: int| 0 <= i < front.len() implies front[i] != slot by {
            assert(front[i] == slots[i]);
        }
        lemma_vacate_spares(r, fx_path, front, slot);
        assert(slots[slots.len() - 1] != slot);
        types::law_slot_names_distinct(slots.last(), slot);
        let one = identity::op_if(
            holds_own(r, fx_path, slots.last()),
            clear_op(Hkey::LocalMachine, fx_path, slots.last()),
        );
        registry::lemma_untouched_concat(
            vacate_ops(r, fx_path, front),
            one,
            Hkey::LocalMachine,
            fx_path,
            types::slot_name(slot),
        );
    }
}

fn vacate_slots(registry: &mut Registry, fx_path: &str)
    ensures
        registry::advanced(
            *old(registry),
            *final(registry),
            vacate_ops(old(registry)@, fx_path@, types::all_slots()),
        ),
{
    let ghost r0 = *registry;
    let ghost all = types::all_slots();
    let mut i: usize = 0;
    proof {
        registry::lemma_advanced_refl(r0);
        read::law_slot_positions(ApoSlot::Lfx);
        assert(all.take(0) =~= Seq::empty());
    }
    while i < 5
        invariant
            i <= 5,
            all == types::all_slots(),
            ApoSlot::ALL@ == all,
            registry::advanced(
                r0,
                *registry,
                vacate_ops(r0@, fx_path@, all.take(i as int)),
            ),
        decreases 5 - i,
    {
        let slot = ApoSlot::ALL[i];
        let ghost t = all.take(i + 1);
        let ghost done = vacate_ops(r0@, fx_path@, all.take(i as int));
        let ghost rb = *registry;
        proof {
            assert(t.drop_last() =~= all.take(i as int));
            assert(t.last() == slot);
            assert(!all.take(i as int).contains(slot));
            lemma_vacate_spares(r0@, fx_path@, all.take(i as int), slot);
            registry::law_untouched_value_stays(
                r0@,
                done,
                Hkey::LocalMachine,
                fx_path@,
                types::slot_name(slot),
            );
            registry::lemma_advanced_refl(rb);
        }
        if slot_holds_own(registry, fx_path, slot) {
            let name = slot.value_name();
            registry.delete_value(Hkey::LocalMachine, fx_path, name.as_str());
        }
        proof {
            registry::lemma_advanced_trans(
                r0,
                rb,
                *registry,
                done,
                identity::op_if(
                    holds_own(r0@, fx_path@, slot),
                    clear_op(Hkey::LocalMachine, fx_path@, slot),
                ),
            );
        }
        i += 1;
    }
    assert(all.take(i as int) =~= all);
}

fn tidy(registry: &mut Registry, fx_path: &str)
    ensures
        registry::advanced(*old(registry), *final(registry), tidy_ops(fx_path@)),
{
    let h = Hkey::LocalMachine;
    let ghost r0 = *registry;
    let ghost ops = tidy_ops(fx_path@);
    registry.delete_value(h, fx_path, CHILD_GUID_VALUE);
    let ghost r1 = *registry;
    registry.delete_value(h, fx_path, ALLOW_SILENT_BUFFER_VALUE);
    let ghost r2 = *registry;
    registry.delete_value(h, fx_path, AUTO_ADJUST_VALUE);
    let ghost r3 = *registry;
    registry.delete_value(h, fx_path, VERSION_VALUE);
    let ghost r4 = *registry;
    registry.delete_value(h, fx_path, DISABLE_ENHANCEMENTS_VALUE);
    proof {
        registry::lemma_advanced_trans(r0, r1, r2, seq![ops[0]], seq![ops[1]]);
        let a = seq![ops[0]] + seq![ops[1]];
        registry::lemma_advanced_trans(r0, r2, r3, a, seq![ops[2]]);
        registry::lemma_advanced_trans(r0, r3, r4, a + seq![ops[2]], seq![ops[3]]);
        registry::lemma_advanced_trans(
            r0,
            r4,
            *registry,
            a + seq![ops[2]] + seq![ops[3]],
            seq![ops[4]],
        );
        assert(a + seq![ops[2]] + seq![ops[3]] + seq![ops[4]] =~= ops);
    }
}

/// Removes the installation on an endpoint.
pub fn uninstall_endpoint(registry: &mut Registry, device_guid: &str) -> (r: Result<
    (),
    VxApoError,
>)
    ensures
        match info::endpoint_path(old(registry)@, device_guid@) {
            Some(p) => r is Ok && registry::advanced(
                *old(registry),
                *final(registry),
                uninstall_ops(old(registry)@, p),
            ),
            None => {
                &&& r matches Err(e)
                &&& e@ == ErrorView::DeviceNotFound(device_guid@)
                &&& *final(registry) == *old(registry)
            },
        },
{
    let ghost r0 = *registry;
    let endpoint_path = match find_endpoint_path(registry, device_guid) {
        Ok((p, _flow)) => p,
        Err(e) => {
            return Err(e);
        },
    };
    let fx_path = join_path(endpoint_path.as_str(), FX_PROPERTIES_KEY);
    registry.create_key(Hkey::LocalMachine, fx_path.as_str());
    let ghost r1 = *registry;
    let ghost made = seq![OpView::CreateKey { root: Hkey::LocalMachine, path: fx_path@ }];
    proof {
        assert forall|slot: ApoSlot| #[trigger] holds_own(r1@, fx_path@, slot) == holds_own(
            r0@,
            fx_path@,
            slot,
        ) by {
            lemma_keys_keep_values(r0@, made, fx_path@, types::slot_name(slot));
        }
        lemma_vacate_same(r0@, r1@, fx_path@, types::all_slots());
    }
    vacate_slots(registry, fx_path.as_str());
    let ghost r2 = *registry;
    tidy(registry, fx_path.as_str());
    proof {
        let v = vacate_ops(r0@, fx_path@, types::all_slots());
        registry::lemma_advanced_trans(r0, r1, r2, made, v);
        registry::lemma_advanced_trans(r0, r2, *registry, made + v, tidy_ops(fx_path@));
    }
    Ok(())
}

/// The same slots are cleared where the same ones hold this library's objects.
pub proof fn lemma_vacate_same(
    a: Seq<KeyView>,
    b: Seq<KeyView>,
    fx_path: Seq<char>,
    slots: Seq<ApoSlot>,
)
    requires
        forall|slot: ApoSlot| #[trigger] holds_own(b, fx_path, slot) == holds_own(a, fx_path, slot),
    ensures
        vacate_ops(a, fx_path, slots) == vacate_ops(b, fx_path, slots),
    decreases slots.len(),
{
    if slots.len() > 0 {
        lemma_vacate_same(a, b, fx_path, slots.drop_last());
        assert(holds_own(b, fx_path, slots.last()) == holds_own(a, fx_path, slots.last()));
    }
}

/// The object that is kept as a child is the one before mixing where that is asked for and
/// the slot holds one, else the one after mixing in the same way, else none.
pub proof fn law_kept_child(r: Seq<KeyView>, fx_path: Seq<char>, config: InstallConfig)
    ensures
        ({
            let pre = slot_at(r, fx_path, types::premix_of(config.install_mode));
            let post = slot_at(r, fx_path, types::postmix_of(config.install_mode));
            let child = kept_child(r, fx_path, config);
            &&& config.use_original_apo_premix ==> (pre matches SlotValue::Guid(g) ==> child == Some(
                g,
            ))
            &&& !config.use_original_apo_premix || !(pre is Guid) ==> {
                &&& config.use_original_apo_postmix ==> (post matches SlotValue::Guid(g) ==> child
                    == Some(g))
                &&& !config.use_original_apo_postmix || !(post is Guid) ==> child is None
            }
        }),
{
}

/// Installing in a mode clears every slot but its two.
pub proof fn law_cleared_slots(slot: ApoSlot)
    ensures
        clears(InstallMode::LfxGfx, slot) <==> slot is Sfx || slot is Mfx || slot is Efx,
        clears(InstallMode::SfxMfx, slot) <==> slot is Lfx || slot is Gfx || slot is Efx,
        clears(InstallMode::SfxEfx, slot) <==> slot is Lfx || slot is Gfx || slot is Mfx,
{
}

/// A slot holds the object whose bytes were put there; one with too few bytes is empty,
/// and one that holds no bytes at all is as if it were not there.
pub proof fn law_binary_slots(g: GUID, b: Seq<u8>, s: Seq<char>)
    ensures
        binary_slot(Some(ValueView::Binary(guid::guid_bytes(g)))) == SlotValue::Guid(g),
        b.len() < 16 ==> binary_slot(Some(ValueView::Binary(b))) == SlotValue::NoValue,
        binary_slot(Some(ValueView::Sz(s))) == SlotValue::NoKey,
        binary_slot(None) == SlotValue::NoKey,
{
    guid::law_guid_bytes_round_trip(g);
}

/// Removing an installation clears no slot but those that hold one of this library's
/// objects.
pub proof fn law_vacating_spares_others(
    r: Seq<KeyView>,
    fx_path: Seq<char>,
    slots: Seq<ApoSlot>,
    i: int,
)
    requires
        0 <= i < vacate_ops(r, fx_path, slots).len(),
    ensures
        exists|k: int|
            0 <= k < slots.len() && holds_own(r, fx_path, #[trigger] slots[k]) && vacate_ops(
                r,
                fx_path,
                slots,
            )[i] == clear_op(Hkey::LocalMachine, fx_path, slots[k]),
    decreases slots.len(),
{
    let t = slots.drop_last();
    let rest = vacate_ops(r, fx_path, t);
    if i < rest.len() {
        law_vacating_spares_others(r, fx_path, t, i);
        let k = choose|k: int|
            0 <= k < t.len() && holds_own(r, fx_path, #[trigger] t[k]) && rest[i] == clear_op(
                Hkey::LocalMachine,
                fx_path,
                t[k],
            );
        assert(slots[k] == t[k]);
    } else {
        let k = slots.len() - 1;
        assert(holds_own(r, fx_path, slots[k]));
    }
}

} // verus!
