//! Installing on an endpoint, and removing an installation.

use vstd::prelude::*;
use crate::error::{ErrorView, VxApoError};
use crate::guid;
use crate::guid::{hex_text, GUID};
use crate::install::audiodg;
use crate::install::device::identity;
use crate::install::device::identity::IdentityView;
use crate::install::device::info;
use crate::install::device::info::{find_endpoint_path, DISABLE_ENHANCEMENTS_VALUE};
use crate::install::device::slots::child;
use crate::install::device::slots::child::CHILD_APO_PATH_ROOT;
use crate::install::device::slots::read;
use crate::install::device::slots::types;
use crate::install::device::slots::{ApoSlot, InstallMode, SlotValue, FX_PROPERTIES_KEY};
use crate::install::device::stale;
use crate::install::device::stale::detect;
use crate::install::device::stale::migrate;
use crate::install::device::stale::migrate::{
    migration_warnings, MigrationOutcomes, MigrationPlan, PlanView,
};
use crate::install::device::stale::{Files, MigrationReport};
use crate::install::device::sysfx;
use crate::install::device::sysfx::{
    DISABLE_SYSFX_VALUE, PKEY_FX_MODE_EFFECT_CLSID, PKEY_FX_STREAM_EFFECT_CLSID,
};
use crate::install::selector::operation::capx;
use crate::install::selector::operation::capx::{restore_sysfx, take_over_sysfx};
use crate::install::selector::operation::helpers;
use crate::install::selector::operation::helpers::{
    backup_file_path, delete_other_mode_slots, ensure_fx_properties, read_backup, read_original_apo_guids,
    read_slot, split_hklm_path, write_apo_slot, write_child_apo_config,
    write_default_processmode, ALLOW_SILENT_BUFFER_VALUE, AUTO_ADJUST_VALUE, VERSION_VALUE,
};
use crate::install::selector::operation::transaction;
use crate::install::selector::operation::transaction::{ActionView, Transaction};
use crate::install::selector::operation::InstallConfig;
use crate::object::vx_reg_props;
use crate::object::vx_reg_props::{clsid_post_mix, clsid_pre_mix, own_clsid};
use crate::refusal::make_until;
use crate::registry;
use crate::registry::{join_path, Hkey, KeyView, OpView, RegOp, Registry};
use crate::text;
use crate::text::{concat2, concat3, contains, eq};
use crate::undo::snapshot;

verus! {

/// Effect property of older installations: the displaced object.
pub const CHILD_GUID_VALUE: &'static str = "childGuid";

/// Whether an endpoint is one that records.
pub open spec fn records(endpoint_path: Seq<char>) -> bool {
    text::find(endpoint_path, "Capture"@) is Some
}

/// The effect properties of an endpoint.
pub open spec fn fx_of(endpoint_path: Seq<char>) -> Seq<char> {
    registry::join(endpoint_path, FX_PROPERTIES_KEY@)
}

/// Whether an installation uses the slot after mixing: never where the endpoint
/// records.
pub open spec fn uses_postmix(endpoint_path: Seq<char>, config: InstallConfig) -> bool {
    config.install_postmix && !records(endpoint_path)
}

/// The changes that put the objects into their slots, and switch effects on.
pub open spec fn object_ops(endpoint_path: Seq<char>, config: InstallConfig) -> Seq<OpView> {
    let fx = fx_of(endpoint_path);
    let mode = config.install_mode;
    helpers::clear_ops(fx, mode, types::all_slots()) + identity::op_if(
        config.install_premix,
        helpers::set_sz(
            fx,
            types::slot_name(types::premix_of(mode)),
            guid::guid_text(clsid_pre_mix()),
        ),
    ) + identity::op_if(
        uses_postmix(endpoint_path, config),
        helpers::set_sz(
            fx,
            types::slot_name(types::postmix_of(mode)),
            guid::guid_text(clsid_post_mix()),
        ),
    ) + helpers::processing_ops(
        fx,
        mode,
        config.install_premix,
        uses_postmix(endpoint_path, config),
    ) + sysfx::enable_ops(fx)
}

/// The changes that write the record of an installation and put the objects into
/// their slots.
pub open spec fn entry_ops(
    r: Seq<KeyView>,
    device_guid: Seq<char>,
    endpoint_path: Seq<char>,
    config: InstallConfig,
) -> Seq<OpView> {
    let fx = fx_of(endpoint_path);
    let mode = config.install_mode;
    helpers::record_ops(
        r,
        device_guid,
        endpoint_path,
        fx,
        config,
        helpers::kept_child(
            config.use_original_apo_premix,
            helpers::slot_at(r, fx, types::premix_of(mode)),
        ),
        if records(endpoint_path) {
            None
        } else {
            helpers::kept_child(
                config.use_original_apo_postmix,
                helpers::slot_at(r, fx, types::postmix_of(mode)),
            )
        },
    ) + object_ops(endpoint_path, config)
}

/// The registry once the effect properties are there.
pub open spec fn with_fx(r: Seq<KeyView>, endpoint_path: Seq<char>) -> Seq<KeyView> {
    registry::apply_all(r, helpers::fx_ops(r, fx_of(endpoint_path)))
}

/// The registry once the objects are in their slots.
pub open spec fn with_entries(
    r: Seq<KeyView>,
    device_guid: Seq<char>,
    endpoint_path: Seq<char>,
    config: InstallConfig,
) -> Seq<KeyView> {
    let r1 = with_fx(r, endpoint_path);
    registry::apply_all(r1, entry_ops(r1, device_guid, endpoint_path, config))
}

/// The changes that install on an endpoint.
pub open spec fn install_ops(
    r: Seq<KeyView>,
    device_guid: Seq<char>,
    endpoint_path: Seq<char>,
    config: InstallConfig,
) -> Seq<OpView> {
    helpers::fx_ops(r, fx_of(endpoint_path)) + entry_ops(
        with_fx(r, endpoint_path),
        device_guid,
        endpoint_path,
        config,
    ) + capx::takeover_ops(
        with_entries(r, device_guid, endpoint_path, config),
        device_guid,
        endpoint_path,
        config,
    )
}

/// What is said when the registration of the objects could not be refreshed.
pub open spec fn refresh_text(code: i32) -> Seq<char> {
    "刷新全局 APO 注册失败：HRESULT(0x"@ + guid::hex_digits(code as u32 as nat, 8) + ")"@
}

fn enable_effects(registry: &mut Registry, fx_path: &str)
    ensures
        registry::advanced(*old(registry), *final(registry), sysfx::enable_ops(fx_path@)),
{
    let ghost r0 = *registry;
    registry.delete_value(Hkey::LocalMachine, fx_path, DISABLE_ENHANCEMENTS_VALUE);
    let ghost r1 = *registry;
    registry.delete_value(Hkey::LocalMachine, fx_path, DISABLE_SYSFX_VALUE);
    proof {
        let e = sysfx::enable_ops(fx_path@);
        registry::lemma_advanced_trans(r0, r1, *registry, seq![e[0]], seq![e[1]]);
        assert(seq![e[0]] + seq![e[1]] =~= e);
    }
}

fn write_objects(registry: &mut Registry, endpoint_path: &str, fx_path: &str, config: &InstallConfig)
    requires
        fx_path@ == fx_of(endpoint_path@),
    ensures
        registry::advanced(
            *old(registry),
            *final(registry),
            object_ops(endpoint_path@, *config),
        ),
{
    let mode = config.install_mode;
    let post = config.install_postmix && !contains(endpoint_path, "Capture");
    let ghost r0 = *registry;
    delete_other_mode_slots(registry, fx_path, mode);
    let ghost o0 = helpers::clear_ops(fx_path@, mode, types::all_slots());
    let ghost r1 = *registry;
    proof {
        registry::lemma_advanced_refl(r1);
    }
    if config.install_premix {
        write_apo_slot(registry, fx_path, mode.premix_slot(), clsid_pre_mix());
    }
    let ghost o1 = identity::op_if(
        config.install_premix,
        helpers::set_sz(
            fx_path@,
            types::slot_name(types::premix_of(mode)),
            guid::guid_text(clsid_pre_mix()),
        ),
    );
    let ghost r2 = *registry;
    proof {
        registry::lemma_advanced_refl(r2);
    }
    if post {
        write_apo_slot(registry, fx_path, mode.postmix_slot(), clsid_post_mix());
    }
    let ghost o2 = identity::op_if(
        post,
        helpers::set_sz(
            fx_path@,
            types::slot_name(types::postmix_of(mode)),
            guid::guid_text(clsid_post_mix()),
        ),
    );
    let ghost r3 = *registry;
    write_default_processmode(registry, fx_path, mode, config.install_premix, post);
    let ghost o3 = helpers::processing_ops(fx_path@, mode, config.install_premix, post);
    let ghost r4 = *registry;
    enable_effects(registry, fx_path);
    proof {
        registry::lemma_advanced_trans(r0, r1, r2, o0, o1);
        registry::lemma_advanced_trans(r0, r2, r3, o0 + o1, o2);
        registry::lemma_advanced_trans(r0, r3, r4, o0 + o1 + o2, o3);
        registry::lemma_advanced_trans(
            r0,
            r4,
            *registry,
            o0 + o1 + o2 + o3,
            sysfx::enable_ops(fx_path@),
        );
    }
}

fn write_entries(
    registry: &mut Registry,
    device_guid: &str,
    endpoint_path: &str,
    fx_path: &str,
    config: &InstallConfig,
) -> (r: Result<(), VxApoError>)
    requires
        fx_path@ == fx_of(endpoint_path@),
    ensures
        r is Ok,
        registry::advanced(
            *old(registry),
            *final(registry),
            entry_ops(old(registry)@, device_guid@, endpoint_path@, *config),
        ),
{
    let ghost r0 = *registry;
    let (original_premix, original_postmix) = read_original_apo_guids(registry, fx_path, config);
    let child_postmix = if contains(endpoint_path, "Capture") {
        None
    } else {
        original_postmix
    };
    let written = write_child_apo_config(
        registry,
        device_guid,
        endpoint_path,
        fx_path,
        config,
        original_premix,
        child_postmix,
    );
    let ghost r1 = *registry;
    write_objects(registry, endpoint_path, fx_path, config);
    proof {
        registry::lemma_advanced_trans(
            r0,
            r1,
            *registry,
            helpers::record_ops(
                r0@,
                device_guid@,
                endpoint_path@,
                fx_path@,
                *config,
                original_premix,
                child_postmix,
            ),
            object_ops(endpoint_path@, *config),
        );
    }
    written
}

/// No key is deleted while the record is written.
pub proof fn lemma_record_keeps_keys(
    r: Seq<KeyView>,
    device_guid: Seq<char>,
    endpoint_path: Seq<char>,
    fx_path: Seq<char>,
    config: InstallConfig,
    premix: Option<GUID>,
    postmix: Option<GUID>,
)
    ensures
        registry::keeps_keys(
            helpers::record_ops(r, device_guid, endpoint_path, fx_path, config, premix, postmix),
        ),
{
    let p = child::record_path(device_guid);
    let id = identity::live_identity(r, endpoint_path);
    let a = seq![OpView::CreateKey { root: Hkey::LocalMachine, path: p }];
    let b = helpers::slot_record_ops(r, p, fx_path, config.install_mode, premix, postmix);
    let history = helpers::record_history(r, device_guid, id);
    let c = identity::identity_ops(p, id, history);
    let d = helpers::switch_ops(fx_path, config);
    lemma_slot_record_keeps_keys(r, p, fx_path, config.install_mode, premix, postmix);
    lemma_identity_keeps_keys(p, id, history);
    lemma_switches_keep_keys(fx_path, config);
    assert(registry::keeps_keys(a));
    lemma_four_keep_keys(a, b, c, d);
}

proof fn lemma_four_keep_keys(
    a: Seq<OpView>,
    b: Seq<OpView>,
    c: Seq<OpView>,
    d: Seq<OpView>,
)
    requires
        registry::keeps_keys(a),
        registry::keeps_keys(b),
        registry::keeps_keys(c),
        registry::keeps_keys(d),
    ensures
        registry::keeps_keys(a + b + c + d),
{
    registry::lemma_keeps_keys_concat(a, b);
    registry::lemma_keeps_keys_concat(a + b, c);
    registry::lemma_keeps_keys_concat(a + b + c, d);
}

proof fn lemma_switches_keep_keys(fx_path: Seq<char>, config: InstallConfig)
    ensures
        registry::keeps_keys(helpers::switch_ops(fx_path, config)),
{
}

proof fn lemma_slot_record_keeps_keys(
    r: Seq<KeyView>,
    p: Seq<char>,
    fx_path: Seq<char>,
    mode: InstallMode,
    premix: Option<GUID>,
    postmix: Option<GUID>,
)
    ensures
        registry::keeps_keys(helpers::slot_record_ops(r, p, fx_path, mode, premix, postmix)),
{
}

proof fn lemma_identity_keeps_keys(
    p: Seq<char>,
    id: IdentityView,
    history: Seq<Seq<char>>,
)
    ensures
        registry::keeps_keys(identity::identity_ops(p, id, history)),
{
}

/// No key is deleted while the objects are put into their slots.
pub proof fn lemma_objects_keep_keys(endpoint_path: Seq<char>, config: InstallConfig)
    ensures
        registry::keeps_keys(object_ops(endpoint_path, config)),
{
    let fx = fx_of(endpoint_path);
    let mode = config.install_mode;
    let a = helpers::clear_ops(fx, mode, types::all_slots());
    lemma_clear_ops_values(fx, mode, types::all_slots());
    assert(registry::keeps_keys(a));
    let b = identity::op_if(
        config.install_premix,
        helpers::set_sz(
            fx,
            types::slot_name(types::premix_of(mode)),
            guid::guid_text(clsid_pre_mix()),
        ),
    );
    let c = identity::op_if(
        uses_postmix(endpoint_path, config),
        helpers::set_sz(
            fx,
            types::slot_name(types::postmix_of(mode)),
            guid::guid_text(clsid_post_mix()),
        ),
    );
    let d = helpers::processing_ops(
        fx,
        mode,
        config.install_premix,
        uses_postmix(endpoint_path, config),
    );
    registry::lemma_keeps_keys_concat(a, b);
    registry::lemma_keeps_keys_concat(a + b, c);
    assert(registry::keeps_keys(d));
    registry::lemma_keeps_keys_concat(a + b + c, d);
    registry::lemma_keeps_keys_concat(a + b + c + d, sysfx::enable_ops(fx));
}

/// No key is deleted while the objects are entered.
pub proof fn lemma_entries_keep_keys(
    r: Seq<KeyView>,
    device_guid: Seq<char>,
    endpoint_path: Seq<char>,
    config: InstallConfig,
)
    ensures
        registry::keeps_keys(entry_ops(r, device_guid, endpoint_path, config)),
{
    let fx = fx_of(endpoint_path);
    let mode = config.install_mode;
    let premix = helpers::kept_child(
        config.use_original_apo_premix,
        helpers::slot_at(r, fx, types::premix_of(mode)),
    );
    let postmix = if records(endpoint_path) {
        None
    } else {
        helpers::kept_child(
            config.use_original_apo_postmix,
            helpers::slot_at(r, fx, types::postmix_of(mode)),
        )
    };
    lemma_record_keeps_keys(r, device_guid, endpoint_path, fx, config, premix, postmix);
    lemma_objects_keep_keys(endpoint_path, config);
    registry::lemma_keeps_keys_concat(
        helpers::record_ops(r, device_guid, endpoint_path, fx, config, premix, postmix),
        object_ops(endpoint_path, config),
    );
}

/// Clearing slots deletes values alone.
pub proof fn lemma_clear_ops_values(fx_path: Seq<char>, mode: InstallMode, slots: Seq<ApoSlot>)
    ensures
        forall|i: int|
            0 <= i < helpers::clear_ops(fx_path, mode, slots).len() ==> (
            #[trigger] helpers::clear_ops(fx_path, mode, slots)[i]) is DeleteValue,
    decreases slots.len(),
{
    if slots.len() > 0 {
        lemma_clear_ops_values(fx_path, mode, slots.drop_last());
    }
}

/// An endpoint stays where it is while the objects are put into their slots.
proof fn lemma_endpoint_stays(
    r: Seq<KeyView>,
    device_guid: Seq<char>,
    endpoint_path: Seq<char>,
    config: InstallConfig,
)
    requires
        registry::has_key(r, Hkey::LocalMachine, endpoint_path),
    ensures
        registry::has_key(
            with_entries(r, device_guid, endpoint_path, config),
            Hkey::LocalMachine,
            endpoint_path,
        ),
{
    registry::law_keys_stay(
        r,
        helpers::fx_ops(r, fx_of(endpoint_path)),
        Hkey::LocalMachine,
        endpoint_path,
    );
    let r1 = with_fx(r, endpoint_path);
    lemma_entries_keep_keys(r1, device_guid, endpoint_path, config);
    registry::law_keys_stay(
        r1,
        entry_ops(r1, device_guid, endpoint_path, config),
        Hkey::LocalMachine,
        endpoint_path,
    );
}

/// Installs on an endpoint that is there.
fn install_at(
    registry: &mut Registry,
    device_guid: &str,
    endpoint_path: &str,
    config: &InstallConfig,
) -> (r: Result<bool, VxApoError>)
    requires
        registry::has_key(old(registry)@, Hkey::LocalMachine, endpoint_path@),
    ensures
        r == Ok::<bool, VxApoError>(helpers::fx_is_new(old(registry)@, fx_of(endpoint_path@))),
        registry::advanced(
            *old(registry),
            *final(registry),
            install_ops(old(registry)@, device_guid@, endpoint_path@, *config),
        ),
{
    let ghost r0 = *registry;
    proof {
        lemma_endpoint_stays(r0@, device_guid@, endpoint_path@, *config);
    }
    let fx_path = join_path(endpoint_path, FX_PROPERTIES_KEY);
    let fx_is_new = ensure_fx_properties(registry, fx_path.as_str());
    let ghost r1 = *registry;
    match write_entries(registry, device_guid, endpoint_path, fx_path.as_str(), config) {
        Ok(_) => {},
        Err(e) => {
            return Err(e);
        },
    }
    let ghost r2 = *registry;
    let taken = take_over_sysfx(registry, device_guid, endpoint_path, config);
    proof {
        let o1 = helpers::fx_ops(r0@, fx_path@);
        let o2 = entry_ops(r1@, device_guid@, endpoint_path@, *config);
        let o3 = capx::takeover_ops(r2@, device_guid@, endpoint_path@, *config);
        registry::lemma_advanced_trans(r0, r1, r2, o1, o2);
        registry::lemma_advanced_trans(r0, r2, *registry, o1 + o2, o3);
    }
    match taken {
        Ok(_) => Ok(fx_is_new),
        Err(e) => Err(e),
    }
}

/// The registry once third-party objects may load.
pub open spec fn allowed(r: Seq<KeyView>) -> Seq<KeyView> {
    registry::apply_all(r, audiodg::disable_ops())
}

/// Why an endpoint cannot be installed on, where that is so: the registration of
/// the objects could not be refreshed, or there is no such endpoint.
pub open spec fn install_error(r: Seq<KeyView>, device_guid: Seq<char>, refreshed: i32) -> Option<
    ErrorView,
> {
    if refreshed != 0 {
        Some(ErrorView::Internal(refresh_text(refreshed)))
    } else if info::endpoint_path(allowed(r), device_guid) is None {
        Some(ErrorView::DeviceNotFound(device_guid))
    } else {
        None
    }
}

/// The changes of an installation, from the first one on. Where it fails, only
/// third-party objects may load from then on.
pub open spec fn config_ops(
    r: Seq<KeyView>,
    device_guid: Seq<char>,
    config: InstallConfig,
    refreshed: i32,
) -> Seq<OpView> {
    match info::endpoint_path(allowed(r), device_guid) {
        Some(ep) if refreshed == 0 => audiodg::disable_ops() + install_ops(
            allowed(r),
            device_guid,
            ep,
            config,
        ),
        _ => audiodg::disable_ops(),
    }
}

/// Makes the changes of an installation.
fn make_install_changes(
    registry: &mut Registry,
    device_guid: &str,
    device_name: &str,
    connection_name: &str,
    config: &InstallConfig,
    refreshed: i32,
) -> (r: Result<Option<String>, VxApoError>)
    ensures
        registry::advanced(
            *old(registry),
            *final(registry),
            config_ops(old(registry)@, device_guid@, *config, refreshed),
        ),
        match install_error(old(registry)@, device_guid@, refreshed) {
            Some(error) => r matches Err(e) && e@ == error,
            None => {
                let allowed = allowed(old(registry)@);
                let ep = info::endpoint_path(allowed, device_guid@).unwrap();
                match r {
                    Ok(Some(file)) => !helpers::fx_is_new(allowed, fx_of(ep)) && file@
                        == helpers::backup_file(device_name@, connection_name@),
                    Ok(None) => helpers::fx_is_new(allowed, fx_of(ep)),
                    Err(_) => false,
                }
            },
        },
{
    let ghost r0 = *registry;
    match audiodg::disable(registry) {
        Ok(_) => {},
        Err(e) => {
            return Err(e);
        },
    }
    let ghost r1 = *registry;
    if refreshed != 0 {
        let digits = hex_text(refreshed as u32, 8);
        let m = concat3("刷新全局 APO 注册失败：HRESULT(0x", digits.as_str(), ")");
        return Err(VxApoError::internal(m.as_str()));
    }
    let endpoint_path = match find_endpoint_path(registry, device_guid) {
        Ok(p) => p,
        Err(e) => {
            return Err(e);
        },
    };
    let done = install_at(registry, device_guid, endpoint_path.as_str(), config);
    proof {
        registry::lemma_advanced_trans(
            r0,
            r1,
            *registry,
            audiodg::disable_ops(),
            install_ops(r1@, device_guid@, endpoint_path@, *config),
        );
    }
    match done {
        Ok(fx_is_new) => if fx_is_new {
            Ok(None)
        } else {
            Ok(Some(backup_file_path(device_name, connection_name)))
        },
        Err(e) => Err(e),
    }
}

/// Installs on an endpoint: third-party objects may load from then on, the
/// record is written, the objects are put into their slots, and the default
/// effects of the device are taken over. `refreshed` is the code with which the
/// registration of the objects was refreshed; with any but zero nothing more is
/// done. What undoes the changes is recorded, whether or not they all were made.
/// Where an earlier installation had the effect properties, the result names the
/// file to which they are to be exported.
pub fn write_install_config(
    registry: &mut Registry,
    tx: &mut Transaction,
    device_guid: &str,
    device_name: &str,
    connection_name: &str,
    config: &InstallConfig,
    refreshed: i32,
) -> (r: Result<Option<String>, VxApoError>)
    ensures
        final(tx).committed == old(tx).committed,
        registry::advanced(
            *old(registry),
            *final(registry),
            config_ops(old(registry)@, device_guid@, *config, refreshed),
        ),
        final(tx).recorded() == old(tx).recorded() + transaction::actions_for(
            old(registry)@,
            config_ops(old(registry)@, device_guid@, *config, refreshed),
        ),
        match install_error(old(registry)@, device_guid@, refreshed) {
            Some(error) => r matches Err(e) && e@ == error,
            None => {
                let allowed = allowed(old(registry)@);
                let ep = info::endpoint_path(allowed, device_guid@).unwrap();
                match r {
                    Ok(Some(file)) => !helpers::fx_is_new(allowed, fx_of(ep)) && file@
                        == helpers::backup_file(device_name@, connection_name@),
                    Ok(None) => helpers::fx_is_new(allowed, fx_of(ep)),
                    Err(_) => false,
                }
            },
        },
{
    let ghost r0 = *registry;
    let before = snapshot(registry);
    let start: usize = registry.journal.len();
    let done = make_install_changes(
        registry,
        device_guid,
        device_name,
        connection_name,
        config,
        refreshed,
    );
    proof {
        assert(r0.log().len() == start);
        assert(registry.log().len() == registry.journal@.len());
    }
    tx.record_changes(before, &registry.journal, start);
    assert(registry.log().skip(start as int) =~= config_ops(
        r0@,
        device_guid@,
        *config,
        refreshed,
    ));
    done
}

/// Whether a change of an installation has to go through. What is only in the way,
/// the slots of another mode and what switches effects off, is deleted as far as that
/// can be done.
pub open spec fn is_required(op: OpView) -> bool {
    match op {
        OpView::DeleteValue { name, .. } => name == PKEY_FX_STREAM_EFFECT_CLSID@ || name
            == PKEY_FX_MODE_EFFECT_CLSID@,
        _ => true,
    }
}

/// Whether a change of an installation has to go through.
pub fn must_succeed(op: &RegOp) -> (r: bool)
    ensures
        r == is_required(op@),
{
    match op {
        RegOp::DeleteValue { name, .. } => eq(name.as_str(), PKEY_FX_STREAM_EFFECT_CLSID) || eq(
            name.as_str(),
            PKEY_FX_MODE_EFFECT_CLSID,
        ),
        _ => true,
    }
}

proof fn lemma_takeover_names(
    r: Seq<KeyView>,
    paths: Seq<Seq<char>>,
    mode: InstallMode,
    install_premix: bool,
    install_postmix: bool,
)
    ensures
        forall|i: int|
            #![trigger sysfx::takeover_plan(r, paths, mode, install_premix, install_postmix)[i]]
            0 <= i < sysfx::takeover_plan(
                r,
                paths,
                mode,
                install_premix,
                install_postmix,
            ).len() ==> is_required(
                sysfx::change_op(
                    sysfx::takeover_plan(r, paths, mode, install_premix, install_postmix)[i],
                ),
            ),
    decreases paths.len(),
{
    if paths.len() > 0 {
        lemma_takeover_names(r, paths.drop_last(), mode, install_premix, install_postmix);
    }
}

/// Every change of a takeover has to go through.
pub proof fn law_takeover_is_required(
    r: Seq<KeyView>,
    device_guid: Seq<char>,
    endpoint_path: Seq<char>,
    config: InstallConfig,
    i: int,
)
    requires
        0 <= i < capx::takeover_ops(r, device_guid, endpoint_path, config).len(),
    ensures
        is_required(capx::takeover_ops(r, device_guid, endpoint_path, config)[i]),
{
    let paths = capx::endpoint_templates(r, endpoint_path);
    lemma_takeover_names(
        r,
        paths,
        config.install_mode,
        config.install_premix,
        config.install_postmix,
    );
    let plan = sysfx::takeover_plan(
        r,
        paths,
        config.install_mode,
        config.install_premix,
        config.install_postmix,
    );
    let list = capx::takeover_changes(r, endpoint_path, config);
    let ops = sysfx::change_ops(list);
    if i < ops.len() {
        assert(ops[i] == sysfx::change_op(list[i]));
        if i < plan.len() {
            assert(list[i] == plan[i]);
        }
    }
}

/// No deletion that puts the objects into their slots has to go through.
pub proof fn law_clearing_may_fail(endpoint_path: Seq<char>, config: InstallConfig, i: int)
    requires
        0 <= i < object_ops(endpoint_path, config).len(),
        object_ops(endpoint_path, config)[i] is DeleteValue,
    ensures
        !is_required(object_ops(endpoint_path, config)[i]),
{
    let fx = fx_of(endpoint_path);
    let mode = config.install_mode;
    let a = helpers::clear_ops(fx, mode, types::all_slots());
    let e = sysfx::enable_ops(fx);
    let ops = object_ops(endpoint_path, config);
    lemma_clear_names(fx, mode, types::all_slots());
    reveal_strlit("DisableEnhancements");
    reveal_strlit("{1da5d803-d492-4edd-8c23-e0c0ffee7f0e},5");
    reveal_strlit("{D04E05A6-594B-4FB6-A80D-01AF5EED7D1D},5");
    reveal_strlit("{D04E05A6-594B-4FB6-A80D-01AF5EED7D1D},6");
    assert(DISABLE_ENHANCEMENTS_VALUE@[0] == 'D');
    assert(DISABLE_SYSFX_VALUE@[1] == '1');
    assert(PKEY_FX_STREAM_EFFECT_CLSID@[0] == '{' && PKEY_FX_STREAM_EFFECT_CLSID@[1] == 'D');
    assert(PKEY_FX_MODE_EFFECT_CLSID@[0] == '{' && PKEY_FX_MODE_EFFECT_CLSID@[1] == 'D');
    let n = ops.len() - e.len();
    if i < a.len() {
        assert(ops[i] == a[i]);
    } else if i >= n {
        assert(ops[i] == e[i - n]);
    }
}

proof fn lemma_clear_names(fx_path: Seq<char>, mode: InstallMode, slots: Seq<ApoSlot>)
    ensures
        forall|i: int|
            #![trigger helpers::clear_ops(fx_path, mode, slots)[i]]
            0 <= i < helpers::clear_ops(fx_path, mode, slots).len() ==> !is_required(
                helpers::clear_ops(fx_path, mode, slots)[i],
            ),
    decreases slots.len(),
{
    if slots.len() > 0 {
        lemma_clear_names(fx_path, mode, slots.drop_last());
        lemma_slot_not_required(fx_path, slots.last());
        let before = helpers::clear_ops(fx_path, mode, slots.drop_last());
        let ops = helpers::clear_ops(fx_path, mode, slots);
        assert forall|i: int| 0 <= i < ops.len() implies !is_required(#[trigger] ops[i]) by {
            if i < before.len() {
                assert(ops[i] == before[i]);
            } else {
                assert(ops[i] == helpers::clear_op(fx_path, slots.last()));
            }
        }
    }
}

proof fn lemma_slot_not_required(fx_path: Seq<char>, slot: ApoSlot)
    ensures
        !is_required(helpers::clear_op(fx_path, slot)),
{
    let name = types::slot_name(slot);
    reveal_strlit("{d04e05a6-594b-4fb6-a80d-01af5eed7d1d},");
    reveal_strlit("{D04E05A6-594B-4FB6-A80D-01AF5EED7D1D},5");
    reveal_strlit("{D04E05A6-594B-4FB6-A80D-01AF5EED7D1D},6");
    assert(name[1] == 'd');
    assert(PKEY_FX_STREAM_EFFECT_CLSID@[1] == 'D');
    assert(PKEY_FX_MODE_EFFECT_CLSID@[1] == 'D');
}

// ---------------------------------------------------------------------------
// Removing an installation
// ---------------------------------------------------------------------------
/// Whether a slot of the effect properties at a place holds an object of this
/// library's.
pub open spec fn holds_own(r: Seq<KeyView>, fx_path: Seq<char>, slot: ApoSlot) -> bool {
    match helpers::slot_at(r, fx_path, slot) {
        SlotValue::Guid(g) => vx_reg_props::is_own_clsid(g),
        _ => false,
    }
}

/// The changes that take this library's objects out of some slots.
pub open spec fn vacate_ops(r: Seq<KeyView>, fx_path: Seq<char>, slots: Seq<ApoSlot>) -> Seq<OpView>
    decreases slots.len(),
{
    if slots.len() == 0 {
        Seq::empty()
    } else {
        vacate_ops(r, fx_path, slots.drop_last()) + identity::op_if(
            holds_own(r, fx_path, slots.last()),
            helpers::clear_op(fx_path, slots.last()),
        )
    }
}

/// The object that is put back into a slot: the one that the record has of it, where
/// the slot holds one of this library's.
pub open spec fn put_back(
    r: Seq<KeyView>,
    device_guid: Seq<char>,
    fx_path: Seq<char>,
    slot: ApoSlot,
) -> Option<GUID> {
    if holds_own(r, fx_path, slot) {
        helpers::backup_of(r, device_guid, slot)
    } else {
        None
    }
}

/// The changes that put objects back into some slots.
pub open spec fn refill_ops(
    r: Seq<KeyView>,
    device_guid: Seq<char>,
    fx_path: Seq<char>,
    slots: Seq<ApoSlot>,
) -> Seq<OpView>
    decreases slots.len(),
{
    if slots.len() == 0 {
        Seq::empty()
    } else {
        refill_ops(r, device_guid, fx_path, slots.drop_last()) + helpers::set_guid(
            fx_path,
            types::slot_name(slots.last()),
            put_back(r, device_guid, fx_path, slots.last()),
        )
    }
}

/// The changes that delete what an installation left among the effect
/// properties.
pub open spec fn tidy_ops(fx_path: Seq<char>) -> Seq<OpView> {
    let del = |name: Seq<char>| OpView::DeleteValue {
        root: Hkey::LocalMachine,
        path: fx_path,
        name,
    };
    seq![
        del(CHILD_GUID_VALUE@),
        del(ALLOW_SILENT_BUFFER_VALUE@),
        del(AUTO_ADJUST_VALUE@),
        del(VERSION_VALUE@),
        del(DISABLE_ENHANCEMENTS_VALUE@),
    ]
}

/// The change that deletes the record of an installation.
pub open spec fn forget_op(device_guid: Seq<char>) -> OpView {
    OpView::DeleteTree { root: Hkey::LocalMachine, path: child::record_path(device_guid) }
}

/// The changes that take this library's objects out of their slots, and put those
/// back that they displaced.
pub open spec fn hand_over_ops(
    r: Seq<KeyView>,
    device_guid: Seq<char>,
    endpoint_path: Seq<char>,
) -> Seq<OpView> {
    let fx = fx_of(endpoint_path);
    vacate_ops(r, fx, types::all_slots()) + refill_ops(r, device_guid, fx, types::all_slots())
}

/// The registry once this library's objects are out of their slots, and those back
/// that they displaced.
pub open spec fn handed_over(
    r: Seq<KeyView>,
    device_guid: Seq<char>,
    endpoint_path: Seq<char>,
) -> Seq<KeyView> {
    registry::apply_all(r, hand_over_ops(r, device_guid, endpoint_path))
}

/// The changes that remove an installation from an endpoint.
pub open spec fn uninstall_ops(
    r: Seq<KeyView>,
    device_guid: Seq<char>,
    endpoint_path: Seq<char>,
) -> Seq<OpView> {
    hand_over_ops(r, device_guid, endpoint_path) + sysfx::change_ops(
        capx::give_back_changes(
            handed_over(r, device_guid, endpoint_path),
            device_guid,
            endpoint_path,
        ),
    ) + seq![forget_op(device_guid)] + tidy_ops(fx_of(endpoint_path))
}

/// The changes that take this library's objects out of some slots, but for those
/// that were refused. `refused` goes by the slots; where it is short, nothing was.
pub open spec fn granted_ops(
    r: Seq<KeyView>,
    fx_path: Seq<char>,
    slots: Seq<ApoSlot>,
    refused: Seq<bool>,
) -> Seq<OpView>
    decreases slots.len(),
{
    if slots.len() == 0 {
        Seq::empty()
    } else {
        granted_ops(r, fx_path, slots.drop_last(), refused) + identity::op_if(
            holds_own(r, fx_path, slots.last()) && !is_refused(refused, slots.len() - 1),
            helpers::clear_op(fx_path, slots.last()),
        )
    }
}

/// Whether the write of a slot was refused.
pub open spec fn is_refused(refused: Seq<bool>, i: int) -> bool {
    0 <= i < refused.len() && refused[i]
}

/// Whether one of this library's objects was not let out of one of some slots.
pub open spec fn any_refused(
    r: Seq<KeyView>,
    fx_path: Seq<char>,
    slots: Seq<ApoSlot>,
    refused: Seq<bool>,
) -> bool {
    exists|i: int|
        0 <= i < slots.len() && holds_own(r, fx_path, #[trigger] slots[i]) && is_refused(
            refused,
            i,
        )
}

/// Where nothing is refused, all of this library's objects leave their slots.
proof fn lemma_all_granted(
    r: Seq<KeyView>,
    fx_path: Seq<char>,
    slots: Seq<ApoSlot>,
    refused: Seq<bool>,
)
    requires
        !any_refused(r, fx_path, slots, refused),
    ensures
        granted_ops(r, fx_path, slots, refused) == vacate_ops(r, fx_path, slots),
    decreases slots.len(),
{
    if slots.len() > 0 {
        let t = slots.drop_last();
        if any_refused(r, fx_path, t, refused) {
            let i = choose|i: int|
                0 <= i < t.len() && holds_own(r, fx_path, #[trigger] t[i]) && is_refused(
                    refused,
                    i,
                );
            assert(slots[i] == t[i]);
        }
        lemma_all_granted(r, fx_path, t, refused);
        assert(slots[slots.len() - 1] == slots.last());
    }
}

/// Taking this library's objects out of some slots concerns no other slot.
proof fn lemma_granted_spares(
    r: Seq<KeyView>,
    fx_path: Seq<char>,
    slots: Seq<ApoSlot>,
    refused: Seq<bool>,
    other: ApoSlot,
)
    requires
        !slots.contains(other),
    ensures
        registry::untouched(
            granted_ops(r, fx_path, slots, refused),
            Hkey::LocalMachine,
            fx_path,
            types::slot_name(other),
        ),
    decreases slots.len(),
{
    if slots.len() > 0 {
        let t = slots.drop_last();
        assert forall|i: int| 0 <= i < t.len() implies t[i] != other by {
            assert(slots.contains(slots[i]));
        }
        assert(!t.contains(other));
        lemma_granted_spares(r, fx_path, t, refused, other);
        assert(slots.contains(slots[slots.len() - 1]));
        types::law_slot_names_distinct(slots.last(), other);
    }
}

/// Takes an object of this library's out of a slot; the result says whether the
/// slot held one.
pub fn vacate_slot(registry: &mut Registry, fx_path: &str, slot: ApoSlot) -> (r: bool)
    ensures
        r == holds_own(old(registry)@, fx_path@, slot),
        registry::advanced(
            *old(registry),
            *final(registry),
            identity::op_if(r, helpers::clear_op(fx_path@, slot)),
        ),
{
    proof {
        registry::lemma_advanced_refl(*registry);
    }
    if own_in_slot(registry, fx_path, slot) {
        let name = slot.value_name();
        registry.delete_value(Hkey::LocalMachine, fx_path, name.as_str());
        true
    } else {
        false
    }
}

fn own_in_slot(registry: &Registry, fx_path: &str, slot: ApoSlot) -> (r: bool)
    ensures
        r == holds_own(registry@, fx_path@, slot),
{
    match read_slot(registry, fx_path, slot) {
        SlotValue::Guid(g) => own_clsid(&g),
        _ => false,
    }
}

/// Takes this library's objects out of their slots, as far as that is not refused;
/// the result says whether any was.
fn vacate_slots(registry: &mut Registry, fx_path: &str, refused: &[bool]) -> (r: bool)
    ensures
        r == any_refused(old(registry)@, fx_path@, types::all_slots(), refused@),
        registry::advanced(
            *old(registry),
            *final(registry),
            granted_ops(old(registry)@, fx_path@, types::all_slots(), refused@),
        ),
{
    let ghost r0 = *registry;
    let ghost all = types::all_slots();
    let mut i: usize = 0;
    let mut any = false;
    proof {
        registry::lemma_advanced_refl(r0);
        read::law_slot_positions(ApoSlot::Lfx);
        assert(all.take(0) =~= Seq::empty());
    }
    while i < 5
        invariant
            i <= 5,
            all == types::all_slots(),
            ApoSlot::ALL@ == types::all_slots(),
            r0 == *old(registry),
            any == any_refused(r0@, fx_path@, all.take(i as int), refused@),
            registry::advanced(
                r0,
                *registry,
                granted_ops(r0@, fx_path@, all.take(i as int), refused@),
            ),
        decreases 5 - i,
    {
        let slot = ApoSlot::ALL[i];
        let ghost t = all.take(i + 1);
        let ghost before = all.take(i as int);
        let ghost done = granted_ops(r0@, fx_path@, before, refused@);
        let ghost rb = *registry;
        assert(t.drop_last() =~= before);
        assert(t.last() == slot);
        proof {
            registry::lemma_advanced_refl(rb);
            assert(!before.contains(slot)) by {
                assert(all[0] == ApoSlot::Lfx && all[1] == ApoSlot::Gfx && all[2] == ApoSlot::Sfx
                    && all[3] == ApoSlot::Mfx && all[4] == ApoSlot::Efx);
                assert forall|j: int| 0 <= j < before.len() implies before[j] != slot by {
                    assert(before[j] == all[j]);
                }
            }
            lemma_granted_spares(r0@, fx_path@, before, refused@, slot);
            registry::law_untouched_value_stays(
                r0@,
                done,
                Hkey::LocalMachine,
                fx_path@,
                types::slot_name(slot),
            );
        }
        let no = i < refused.len() && refused[i];
        let ghost had = any;
        if no {
            if own_in_slot(registry, fx_path, slot) {
                any = true;
            }
        } else {
            vacate_slot(registry, fx_path, slot);
        }
        proof {
            registry::lemma_advanced_trans(
                r0,
                rb,
                *registry,
                done,
                identity::op_if(
                    holds_own(r0@, fx_path@, slot) && !no,
                    helpers::clear_op(fx_path@, slot),
                ),
            );
            assert(any == any_refused(r0@, fx_path@, t, refused@)) by {
                if had {
                    let k = choose|k: int|
                        0 <= k < before.len() && holds_own(r0@, fx_path@, #[trigger] before[k])
                            && is_refused(refused@, k);
                    assert(t[k] == before[k]);
                }
                assert(t[i as int] == slot);
                if any_refused(r0@, fx_path@, t, refused@) {
                    let k = choose|k: int|
                        0 <= k < t.len() && holds_own(r0@, fx_path@, #[trigger] t[k])
                            && is_refused(refused@, k);
                    if k < i {
                        assert(before[k] == t[k]);
                    }
                }
            }
        }
        i += 1;
    }
    assert(all.take(i as int) =~= all);
    any
}

/// The objects that are put back into the slots, in the order of the slots.
fn objects_to_put_back(registry: &Registry, device_guid: &str, fx_path: &str) -> (r: Vec<
    Option<GUID>,
>)
    ensures
        r@ == types::all_slots().map_values(
            |slot: ApoSlot| put_back(registry@, device_guid@, fx_path@, slot),
        ),
{
    let ghost all = types::all_slots();
    let mut out: Vec<Option<GUID>> = Vec::new();
    let mut i: usize = 0;
    proof {
        read::law_slot_positions(ApoSlot::Lfx);
    }
    while i < 5
        invariant
            i <= 5,
            all == types::all_slots(),
            ApoSlot::ALL@ == all,
            out@.len() == i,
            forall|k: int|
                0 <= k < i ==> #[trigger] out@[k] == put_back(
                    registry@,
                    device_guid@,
                    fx_path@,
                    all[k],
                ),
        decreases 5 - i,
    {
        let slot = ApoSlot::ALL[i];
        let g = match read_slot(registry, fx_path, slot) {
            SlotValue::Guid(g) => if own_clsid(&g) {
                read_backup(registry, device_guid, slot)
            } else {
                None
            },
            _ => None,
        };
        out.push(g);
        i += 1;
    }
    assert(out@ =~= all.map_values(
        |slot: ApoSlot| put_back(registry@, device_guid@, fx_path@, slot),
    ));
    out
}

fn refill_slots(
    registry: &mut Registry,
    device_guid: &str,
    fx_path: &str,
    objects: &[Option<GUID>],
    r: Ghost<Seq<KeyView>>,
)
    requires
        objects@ == types::all_slots().map_values(
            |slot: ApoSlot| put_back(r@, device_guid@, fx_path@, slot),
        ),
    ensures
        registry::advanced(
            *old(registry),
            *final(registry),
            refill_ops(r@, device_guid@, fx_path@, types::all_slots()),
        ),
{
    let ghost r0 = *registry;
    let ghost all = types::all_slots();
    let mut i: usize = 0;
    proof {
        registry::lemma_advanced_refl(r0);
        read::law_slot_positions(ApoSlot::Lfx);
        assert(all.take(0) =~= Seq::empty());
    }
    while i < 5
        invariant
            i <= 5,
            all == types::all_slots(),
            ApoSlot::ALL@ == all,
            objects@ == all.map_values(
                |slot: ApoSlot| put_back(r@, device_guid@, fx_path@, slot),
            ),
            registry::advanced(
                r0,
                *registry,
                refill_ops(r@, device_guid@, fx_path@, all.take(i as int)),
            ),
        decreases 5 - i,
    {
        let slot = ApoSlot::ALL[i];
        let ghost t = all.take(i + 1);
        let ghost done = refill_ops(r@, device_guid@, fx_path@, all.take(i as int));
        let ghost rb = *registry;
        proof {
            assert(t.drop_last() =~= all.take(i as int));
            assert(t.last() == slot);
            assert(objects@[i as int] == put_back(r@, device_guid@, fx_path@, slot));
            registry::lemma_advanced_refl(rb);
        }
        match objects[i] {
            Some(g) => {
                write_apo_slot(registry, fx_path, slot, g);
            },
            None => {},
        }
        proof {
            registry::lemma_advanced_trans(
                r0,
                rb,
                *registry,
                done,
                helpers::set_guid(
                    fx_path@,
                    types::slot_name(slot),
                    put_back(r@, device_guid@, fx_path@, slot),
                ),
            );
        }
        i += 1;
    }
    assert(all.take(i as int) =~= all);
}

/// What came of the writes of a removal.
#[derive(Clone, Debug, PartialEq, Eq)]
pub struct UninstallOutcomes {
    /// Of each slot, whether deleting its value was refused; where the list is
    /// short, it was not.
    pub slots: Vec<bool>,
    /// Which write was refused once the slots were empty: how many went through
    /// before it, and the error.
    pub restoring: Option<(usize, VxApoError)>,
    /// Why the record could not be deleted.
    pub record: Option<String>,
}

impl UninstallOutcomes {
    /// No write was refused.
    pub fn granted() -> (r: UninstallOutcomes)
        ensures
            r.slots@ == Seq::<bool>::empty(),
            r.restoring is None,
            r.record is None,
    {
        UninstallOutcomes { slots: Vec::new(), restoring: None, record: None }
    }

    /// The write that was refused once the slots were empty, where it is one of the
    /// first `n`.
    pub open spec fn refused_within(&self, n: nat) -> Option<nat> {
        match self.restoring {
            Some((after, _)) if after < n => Some(after as nat),
            _ => None,
        }
    }
}

/// What is said where one of this library's objects was not let out of its slot.
pub const SLOTS_REFUSED: &'static str =
    "卸载槽位失败：写入被拒绝（句柄权限或键 ACL 异常）。请以管理员重试；若仍失败，重启音频服务（net stop audiosrv && net start audiosrv）后重试卸载。";

/// What is said where the record could not be deleted.
pub open spec fn record_refused_text(device_guid: Seq<char>, error: Seq<char>) -> Seq<char> {
    "卸载失败：删除安装信息区 "@ + registry::join(CHILD_APO_PATH_ROOT@, device_guid) + " 失败："@
        + error
}

/// The changes between the emptying of the slots and the deleting of the record:
/// displaced objects are put back, and the default effects are given back where
/// that can be done.
pub open spec fn restore_ops(
    r: Seq<KeyView>,
    device_guid: Seq<char>,
    endpoint_path: Seq<char>,
) -> Seq<OpView> {
    let after = handed_over(r, device_guid, endpoint_path);
    refill_ops(r, device_guid, fx_of(endpoint_path), types::all_slots()) + (if capx::can_give_back(
        after,
        device_guid,
        endpoint_path,
    ) {
        sysfx::change_ops(capx::give_back_changes(after, device_guid, endpoint_path))
    } else {
        Seq::empty()
    })
}

/// Puts displaced objects back and gives the default effects back, up to the write
/// that was refused.
fn restore_endpoint(
    registry: &mut Registry,
    device_guid: &str,
    endpoint_path: &str,
    fx_path: &str,
    objects: &[Option<GUID>],
    restoring: Option<(usize, VxApoError)>,
    r: Ghost<Seq<KeyView>>,
) -> (done: Result<(), VxApoError>)
    requires
        fx_path@ == fx_of(endpoint_path@),
        objects@ == types::all_slots().map_values(
            |slot: ApoSlot| put_back(r@, device_guid@, fx_path@, slot),
        ),
        old(registry)@ == registry::apply_all(r@, vacate_ops(r@, fx_path@, types::all_slots())),
    ensures
        ({
            let ops = restore_ops(r@, device_guid@, endpoint_path@);
            let after = handed_over(r@, device_guid@, endpoint_path@);
            match restoring {
                Some((n, error)) if n < ops.len() => {
                    &&& done == Err::<(), VxApoError>(error)
                    &&& registry::advanced(*old(registry), *final(registry), ops.take(n as int))
                },
                _ => {
                    &&& done is Ok == capx::can_give_back(after, device_guid@, endpoint_path@)
                    &&& done matches Err(e) ==> capx::is_give_back_error(
                        after,
                        device_guid@,
                        endpoint_path@,
                        e@,
                    )
                    &&& registry::advanced(*old(registry), *final(registry), ops)
                },
            }
        }),
{
    let ghost v = vacate_ops(r@, fx_path@, types::all_slots());
    let ghost f = refill_ops(r@, device_guid@, fx_path@, types::all_slots());
    let mut trial = snapshot(registry);
    let ghost t0 = trial;
    refill_slots(&mut trial, device_guid, fx_path, objects, r);
    let ghost t1 = trial;
    proof {
        registry::lemma_apply_all_concat(r@, v, f);
        assert(t1@ == handed_over(r@, device_guid@, endpoint_path@));
    }
    let restored = restore_sysfx(&mut trial, device_guid, endpoint_path);
    let ghost ops = restore_ops(r@, device_guid@, endpoint_path@);
    proof {
        if restored is Ok {
            registry::lemma_advanced_trans(
                t0,
                t1,
                trial,
                f,
                sysfx::change_ops(capx::give_back_changes(t1@, device_guid@, endpoint_path@)),
            );
        }
        assert(trial.log() =~= ops);
        assert(trial.log().len() == trial.journal@.len());
    }
    match restoring {
        Some((n, error)) => {
            if n < trial.journal.len() {
                make_until(registry, trial.journal.as_slice(), Some(n));
                return Err(error);
            }
        },
        None => {},
    }
    make_until(registry, trial.journal.as_slice(), None);
    restored
}

fn tidy(registry: &mut Registry, fx_path: &str)
    ensures
        registry::advanced(*old(registry), *final(registry), tidy_ops(fx_path@)),
{
    let ghost o = tidy_ops(fx_path@);
    let ghost r0 = *registry;
    registry.delete_value(Hkey::LocalMachine, fx_path, CHILD_GUID_VALUE);
    let ghost r1 = *registry;
    registry.delete_value(Hkey::LocalMachine, fx_path, ALLOW_SILENT_BUFFER_VALUE);
    let ghost r2 = *registry;
    registry.delete_value(Hkey::LocalMachine, fx_path, AUTO_ADJUST_VALUE);
    let ghost r3 = *registry;
    registry.delete_value(Hkey::LocalMachine, fx_path, VERSION_VALUE);
    let ghost r4 = *registry;
    registry.delete_value(Hkey::LocalMachine, fx_path, DISABLE_ENHANCEMENTS_VALUE);
    proof {
        registry::lemma_advanced_trans(r0, r1, r2, seq![o[0]], seq![o[1]]);
        registry::lemma_advanced_trans(r0, r2, r3, seq![o[0]] + seq![o[1]], seq![o[2]]);
        registry::lemma_advanced_trans(
            r0,
            r3,
            r4,
            seq![o[0]] + seq![o[1]] + seq![o[2]],
            seq![o[3]],
        );
        registry::lemma_advanced_trans(
            r0,
            r4,
            *registry,
            seq![o[0]] + seq![o[1]] + seq![o[2]] + seq![o[3]],
            seq![o[4]],
        );
        assert(seq![o[0]] + seq![o[1]] + seq![o[2]] + seq![o[3]] + seq![o[4]] =~= o);
    }
}

/// Removes an installation from an endpoint: this library's objects leave their
/// slots, the objects of others that they displaced are put back there, the default
/// effects of the device are given back, and the record is deleted. Slots that hold
/// anything else stay as they are. Without effect properties there is nothing to
/// remove.
///
/// All slots are tried; where one was refused, the rest is left undone. So it is
/// where a write was refused after that, or the default effects cannot be given
/// back, or the record cannot be deleted. What is tidied up after that may fail.
pub fn uninstall_endpoint(
    registry: &mut Registry,
    device_guid: &str,
    outcomes: UninstallOutcomes,
) -> (r: Result<(), VxApoError>)
    ensures
        match info::endpoint_path(old(registry)@, device_guid@) {
            None => {
                &&& r matches Err(e) && e@ == ErrorView::DeviceNotFound(device_guid@)
                &&& *final(registry) == *old(registry)
            },
            Some(ep) => {
                let before = old(registry)@;
                let fx = fx_of(ep);
                let all = types::all_slots();
                let restore = restore_ops(before, device_guid@, ep);
                let after = handed_over(before, device_guid@, ep);
                if !registry::has_key(before, Hkey::LocalMachine, fx) {
                    r is Ok && *final(registry) == *old(registry)
                } else if any_refused(before, fx, all, outcomes.slots@) {
                    &&& r matches Err(e) && e@ == ErrorView::Internal(SLOTS_REFUSED@)
                    &&& registry::advanced(
                        *old(registry),
                        *final(registry),
                        granted_ops(before, fx, all, outcomes.slots@),
                    )
                } else if let Some(n) = outcomes.refused_within(restore.len()) {
                    &&& r == Err::<(), VxApoError>(outcomes.restoring.unwrap().1)
                    &&& registry::advanced(
                        *old(registry),
                        *final(registry),
                        vacate_ops(before, fx, all) + restore.take(n as int),
                    )
                } else if !capx::can_give_back(after, device_guid@, ep) {
                    &&& r matches Err(e) && capx::is_give_back_error(
                        after,
                        device_guid@,
                        ep,
                        e@,
                    )
                    &&& registry::advanced(
                        *old(registry),
                        *final(registry),
                        hand_over_ops(before, device_guid@, ep),
                    )
                } else if let Some(error) = outcomes.record {
                    &&& r matches Err(e) && e@ == ErrorView::Internal(
                        record_refused_text(device_guid@, error@),
                    )
                    &&& registry::advanced(
                        *old(registry),
                        *final(registry),
                        vacate_ops(before, fx, all) + restore,
                    )
                } else {
                    r is Ok && registry::advanced(
                        *old(registry),
                        *final(registry),
                        uninstall_ops(before, device_guid@, ep),
                    )
                }
            },
        },
{
    let ghost r0 = *registry;
    let endpoint_path = match find_endpoint_path(registry, device_guid) {
        Ok(p) => p,
        Err(e) => {
            return Err(e);
        },
    };
    let fx_path = join_path(endpoint_path.as_str(), FX_PROPERTIES_KEY);
    if !registry.holds_key(Hkey::LocalMachine, fx_path.as_str()) {
        return Ok(());
    }
    let objects = objects_to_put_back(registry, device_guid, fx_path.as_str());
    if vacate_slots(registry, fx_path.as_str(), outcomes.slots.as_slice()) {
        return Err(VxApoError::internal(SLOTS_REFUSED));
    }
    let ghost r1 = *registry;
    let ghost o1 = vacate_ops(r0@, fx_path@, types::all_slots());
    let ghost restore = restore_ops(r0@, device_guid@, endpoint_path@);
    proof {
        lemma_all_granted(r0@, fx_path@, types::all_slots(), outcomes.slots@);
    }
    let restored = restore_endpoint(
        registry,
        device_guid,
        endpoint_path.as_str(),
        fx_path.as_str(),
        objects.as_slice(),
        outcomes.restoring,
        Ghost(r0@),
    );
    let ghost r2 = *registry;
    proof {
        match outcomes.refused_within(restore.len()) {
            Some(n) => {
                registry::lemma_advanced_trans(r0, r1, r2, o1, restore.take(n as int));
            },
            None => {
                registry::lemma_advanced_trans(r0, r1, r2, o1, restore);
                if restored is Err {
                    assert(restore =~= refill_ops(
                        r0@,
                        device_guid@,
                        fx_path@,
                        types::all_slots(),
                    ));
                }
            },
        }
    }
    match restored {
        Ok(_) => {},
        Err(e) => {
            return Err(e);
        },
    }
    let info_key = join_path(CHILD_APO_PATH_ROOT, device_guid);
    match outcomes.record {
        Some(error) => {
            let head = concat3("卸载失败：删除安装信息区 ", info_key.as_str(), " 失败：");
            let m = concat2(head.as_str(), error.as_str());
            return Err(VxApoError::internal(m.as_str()));
        },
        None => {},
    }
    proof {
        child::lemma_record_path(device_guid@);
    }
    match split_hklm_path(info_key.as_str()) {
        Ok((root, path)) => {
            registry.delete_tree(root, path.as_str());
        },
        Err(e) => {
            return Err(e);
        },
    }
    let ghost r3 = *registry;
    let ghost o3 = seq![forget_op(device_guid@)];
    tidy(registry, fx_path.as_str());
    proof {
        registry::lemma_advanced_trans(r0, r2, r3, o1 + restore, o3);
        registry::lemma_advanced_trans(r0, r3, *registry, o1 + restore + o3, tidy_ops(fx_path@));
        assert(o1 + restore + o3 + tidy_ops(fx_path@) =~= uninstall_ops(
            r0@,
            device_guid@,
            endpoint_path@,
        ));
    }
    Ok(())
}

// ---------------------------------------------------------------------------
// Migrating an installation
// ---------------------------------------------------------------------------
/// How the installation on a migration's target is repaired.
#[verifier::allow_in_spec]
pub fn repair_config(mode: InstallMode) -> InstallConfig
    returns
        (InstallConfig {
            install_premix: true,
            install_postmix: true,
            install_mode: mode,
            use_original_apo_premix: false,
            use_original_apo_postmix: false,
            allow_silent_buffer: true,
            auto_adjust: false,
        }),
{
    InstallConfig {
        install_premix: true,
        install_postmix: true,
        install_mode: mode,
        use_original_apo_premix: false,
        use_original_apo_postmix: false,
        allow_silent_buffer: true,
        auto_adjust: false,
    }
}

/// Why the installation on a migration's target cannot be repaired, where that is
/// so.
pub open spec fn repair_error(r: Seq<KeyView>, plan: PlanView, code: i32) -> Option<ErrorView> {
    if plan.repaired {
        install_error(r, plan.target_guid, code)
    } else {
        None
    }
}

/// The changes before the records of a migration are merged: those that repair
/// the installation on the target, where it is not whole.
pub open spec fn before_merge(r: Seq<KeyView>, plan: PlanView, code: i32) -> Seq<OpView> {
    if plan.repaired {
        config_ops(r, plan.target_guid, repair_config(plan.mode), code)
    } else {
        Seq::empty()
    }
}

fn repair_target(
    registry: &mut Registry,
    tx: &mut Transaction,
    plan: &MigrationPlan,
    refreshed: i32,
) -> (r: Result<(), VxApoError>)
    ensures
        final(tx).committed == old(tx).committed,
        match repair_error(old(registry)@, plan@, refreshed) {
            Some(error) => r matches Err(e) && e@ == error,
            None => r is Ok,
        },
        registry::advanced(
            *old(registry),
            *final(registry),
            before_merge(old(registry)@, plan@, refreshed),
        ),
        final(tx).recorded() == old(tx).recorded() + transaction::actions_for(
            old(registry)@,
            before_merge(old(registry)@, plan@, refreshed),
        ),
{
    proof {
        registry::lemma_advanced_refl(*registry);
        assert(tx.recorded() + Seq::<ActionView>::empty() =~= tx.recorded());
    }
    if !plan.repaired {
        return Ok(());
    }
    let config = repair_config(plan.mode);
    match write_install_config(
        registry,
        tx,
        plan.target_guid.as_str(),
        plan.target_name.as_str(),
        "",
        &config,
        refreshed,
    ) {
        Ok(_) => Ok(()),
        Err(e) => Err(e),
    }
}

/// Migrates the installation of an old endpoint to the one that took its place:
/// the installation there is repaired where it is not whole, the records of the
/// device's old endpoints are merged into its record, and then deleted. The files
/// are for the caller to move, by the steps of the plan. `refreshed` is the code
/// with which the registration of the objects was refreshed, if it was. What the
/// system refuses once the installation is repaired is noted in the report, and the
/// rest is done; only the record of the target has to be opened.
pub fn migrate_install(
    registry: &mut Registry,
    tx: &mut Transaction,
    files: &Files,
    old_guid: &str,
    new_guid: &str,
    config_from: Option<&str>,
    snapshot_from: Option<&str>,
    is_windows_8_1_or_newer: bool,
    refreshed: i32,
    outcomes: &MigrationOutcomes,
) -> (r: Result<MigrationReport, VxApoError>)
    ensures
        final(tx).committed == old(tx).committed,
        match migrate::planned(
            old(registry)@,
            files@,
            old_guid@,
            new_guid@,
            migrate::opt_str(config_from),
            migrate::opt_str(snapshot_from),
            is_windows_8_1_or_newer,
        ) {
            Err(error) => {
                &&& r matches Err(e) && e@ == error
                &&& *final(registry) == *old(registry)
                &&& final(tx).recorded() == old(tx).recorded()
            },
            Ok(plan) => match repair_error(old(registry)@, plan, refreshed) {
                Some(error) => {
                    let before = before_merge(old(registry)@, plan, refreshed);
                    &&& r matches Err(e) && e@ == error
                    &&& final(tx).recorded() == old(tx).recorded() + transaction::actions_for(
                        old(registry)@,
                        before,
                    )
                    &&& registry::advanced(*old(registry), *final(registry), before)
                },
                None => {
                    let before = before_merge(old(registry)@, plan, refreshed);
                    let r1 = registry::apply_all(old(registry)@, before);
                    &&& final(tx).recorded() == old(tx).recorded() + transaction::actions_for(
                        old(registry)@,
                        before,
                    )
                    &&& match (info::endpoint_path(r1, new_guid@), outcomes@.target) {
                        (None, _) => {
                            &&& r matches Err(e) && e@ == ErrorView::DeviceNotFound(new_guid@)
                            &&& registry::advanced(*old(registry), *final(registry), before)
                        },
                        (Some(_), Some(error)) => {
                            &&& r matches Err(e) && e@ == ErrorView::Internal(
                                migrate::target_text(error),
                            )
                            &&& registry::advanced(*old(registry), *final(registry), before)
                        },
                        (Some(ep), None) => {
                            let ops = migrate::adopt_ops(
                                r1,
                                ep,
                                new_guid@,
                                plan.group,
                                plan.repaired,
                                outcomes@,
                            );
                            if detect::healthy(registry::apply_all(r1, ops), new_guid@) {
                                &&& r matches Ok(report) && report@ == migrate::reported(
                                    plan,
                                    migrate::noted(plan.group, outcomes@),
                                )
                                &&& registry::advanced(
                                    *old(registry),
                                    *final(registry),
                                    before + (ops + migrate::forget_ops(
                                        plan.group,
                                        outcomes@.deletions,
                                        plan.group.len(),
                                    )),
                                )
                            } else {
                                &&& r matches Err(e) && e@ == ErrorView::Internal(
                                    "迁移后目标端点的 VxAPO 安装状态仍不完整（version / Child APOs 缺失）"@,
                                )
                                &&& registry::advanced(
                                    *old(registry),
                                    *final(registry),
                                    before + ops,
                                )
                            }
                        },
                    }
                },
            },
        },
{
    let ghost r0 = *registry;
    let plan = match stale::migrate_install(
        registry,
        files,
        old_guid,
        new_guid,
        config_from,
        snapshot_from,
        is_windows_8_1_or_newer,
    ) {
        Ok(p) => p,
        Err(e) => {
            return Err(e);
        },
    };
    match repair_target(registry, tx, &plan, refreshed) {
        Ok(_) => {},
        Err(e) => {
            return Err(e);
        },
    }
    let ghost r1 = *registry;
    let ghost before = before_merge(r0@, plan@, refreshed);
    let merged = plan.merge_records(registry, outcomes);
    proof {
        match (info::endpoint_path(r1@, new_guid@), outcomes@.target) {
            (Some(ep), None) => {
                let ops = migrate::adopt_ops(
                    r1@,
                    ep,
                    new_guid@,
                    plan@.group,
                    plan@.repaired,
                    outcomes@,
                );
                if merged is Ok {
                    registry::lemma_advanced_trans(
                        r0,
                        r1,
                        *registry,
                        before,
                        ops + migrate::forget_ops(
                            plan@.group,
                            outcomes@.deletions,
                            plan@.group.len(),
                        ),
                    );
                } else {
                    registry::lemma_advanced_trans(r0, r1, *registry, before, ops);
                }
            },
            _ => {},
        }
    }
    match merged {
        Ok(_) => {},
        Err(e) => {
            return Err(e);
        },
    }
    Ok(plan.report(migration_warnings(plan.group.as_slice(), outcomes)))
}

} // verus!
