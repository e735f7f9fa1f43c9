//! What installing, undoing and removing leave in the registry.

use vstd::prelude::*;
use crate::guid;
use crate::guid::GUID;
use crate::install::audiodg::AUDIO_KEY_PATH;
use crate::install::device::identity;
use crate::install::device::info;
use crate::install::device::info::{CAPTURE_PATH, DISABLE_ENHANCEMENTS_VALUE, RENDER_PATH};
use crate::install::device::slots::child;
use crate::install::device::slots::read;
use crate::install::device::slots::types;
use crate::install::device::slots::types::SLOT_NAME_PREFIX;
use crate::install::device::slots::{ApoSlot, InstallMode, SlotValue, INSTALL_VERSION};
use crate::install::device::stale::detect;
use crate::install::device::stale::detect::RecordView;
use crate::install::device::stale::matching;
use crate::install::device::stale::matching::ActiveView;
use crate::install::device::stale::migrate;
use crate::install::device::stale::FilesView;
use crate::install::device::sysfx;
use crate::install::device::sysfx::{
    DEVICE_CLASSES_ROOT, DISABLE_SYSFX_VALUE, PKEY_FX_MODE_EFFECT_CLSID,
};
use crate::install::selector::operation::capx;
use crate::install::selector::operation::execute;
use crate::install::selector::operation::helpers;
use crate::install::selector::operation::helpers::{PROCESSING_MODES_PREFIX, VERSION_VALUE};
use crate::install::selector::operation::transaction;
use crate::install::selector::operation::InstallConfig;
use crate::object::vx_reg_props;
use crate::object::vx_reg_props::{clsid_post_mix, clsid_pre_mix};
use crate::registry;
use crate::registry::{Hkey, KeyView, OpView, ValueView};
use crate::text;
use crate::undo;

verus! {

/// Texts that differ at some position, in whatever case, differ.
proof fn lemma_differ(a: Seq<char>, b: Seq<char>, i: int)
    requires
        0 <= i < a.len(),
        i < b.len(),
        text::lower_char(a[i]) != text::lower_char(b[i]),
    ensures
        !text::eq_ci(a, b),
{
    assert(text::ascii_lower(a)[i] == text::lower_char(a[i]));
    assert(text::ascii_lower(b)[i] == text::lower_char(b[i]));
}

/// Whether a place is that of an endpoint.
pub open spec fn is_endpoint(endpoint_path: Seq<char>, device_guid: Seq<char>) -> bool {
    endpoint_path == registry::join(RENDER_PATH@, device_guid) || endpoint_path == registry::join(
        CAPTURE_PATH@,
        device_guid,
    )
}

/// The effect properties of an endpoint are neither a template nor a record.
proof fn lemma_fx_apart(
    endpoint_path: Seq<char>,
    device_guid: Seq<char>,
    template: Seq<char>,
    other_guid: Seq<char>,
)
    requires
        is_endpoint(endpoint_path, device_guid),
        DEVICE_CLASSES_ROOT@.is_prefix_of(template),
    ensures
        !text::eq_ci(template, execute::fx_of(endpoint_path)),
        !text::eq_ci(child::record_path(other_guid), execute::fx_of(endpoint_path)),
        !text::eq_ci(template, child::record_path(other_guid)),
        !registry::is_below(execute::fx_of(endpoint_path), child::record_path(other_guid)),
        !registry::is_below(child::record_path(other_guid), execute::fx_of(endpoint_path)),
        !text::eq_ci(execute::fx_of(endpoint_path), child::record_path(other_guid)),
{
    let fx = execute::fx_of(endpoint_path);
    let rec = child::record_path(other_guid);
    reveal_strlit("SOFTWARE\\Microsoft\\Windows\\CurrentVersion\\MMDevices\\Audio\\Render");
    reveal_strlit("SOFTWARE\\Microsoft\\Windows\\CurrentVersion\\MMDevices\\Audio\\Capture");
    reveal_strlit("SYSTEM\\CurrentControlSet\\Control\\DeviceClasses");
    reveal_strlit("SOFTWARE\\VxAPO\\Child APOs");
    assert(fx[1] == 'O');
    assert(fx[9] == 'M');
    assert(rec[1] == 'O');
    assert(rec[9] == 'V');
    assert(template[1] == DEVICE_CLASSES_ROOT@[1]);
    lemma_differ(template, fx, 1);
    lemma_differ(rec, fx, 9);
    lemma_differ(fx, rec, 9);
    lemma_differ(template, rec, 1);
    if registry::is_below(fx, rec) {
        let head = fx.subrange(0, rec.len() as int);
        assert(head[9] == 'M');
        lemma_differ(head, rec, 9);
    }
    if registry::is_below(rec, fx) {
        let head = rec.subrange(0, fx.len() as int);
        assert(head[9] == 'V');
        lemma_differ(head, fx, 9);
    }
}

/// No name of a slot is one of another property.
proof fn lemma_slot_apart(slot: ApoSlot, pid: nat)
    ensures
        !text::eq_ci(PROCESSING_MODES_PREFIX@ + text::decimal(pid), types::slot_name(slot)),
        !text::eq_ci(DISABLE_ENHANCEMENTS_VALUE@, types::slot_name(slot)),
        !text::eq_ci(DISABLE_SYSFX_VALUE@, types::slot_name(slot)),
        !text::eq_ci(VERSION_VALUE@, types::slot_name(slot)),
        text::eq_ci(PKEY_FX_MODE_EFFECT_CLSID@, types::slot_name(slot)) ==> slot == ApoSlot::Mfx,
{
    let name = types::slot_name(slot);
    reveal_strlit("{d04e05a6-594b-4fb6-a80d-01af5eed7d1d},");
    reveal_strlit("{d3993a3f-99c2-4402-b5ec-a92a0367664b},");
    reveal_strlit("DisableEnhancements");
    reveal_strlit("{1da5d803-d492-4edd-8c23-e0c0ffee7f0e},5");
    reveal_strlit("version");
    reveal_strlit("{D04E05A6-594B-4FB6-A80D-01AF5EED7D1D},6");
    assert(name[0] == '{');
    assert(name[1] == 'd');
    assert(name[2] == '0');
    lemma_differ(PROCESSING_MODES_PREFIX@ + text::decimal(pid), name, 2);
    lemma_differ(DISABLE_ENHANCEMENTS_VALUE@, name, 0);
    lemma_differ(DISABLE_SYSFX_VALUE@, name, 1);
    lemma_differ(VERSION_VALUE@, name, 0);
    let n = SLOT_NAME_PREFIX@.len() as int;
    assert(name[n] == text::digit_char(types::slot_pid(slot) as nat));
    if slot != ApoSlot::Mfx {
        lemma_differ(PKEY_FX_MODE_EFFECT_CLSID@, name, n);
    }
}

/// The changes of a takeover are made at templates.
proof fn lemma_plan_places(
    r: Seq<KeyView>,
    paths: Seq<Seq<char>>,
    mode: InstallMode,
    install_premix: bool,
    install_postmix: bool,
)
    requires
        sysfx::all_templates(r, paths),
    ensures
        forall|i: int|
            #![trigger sysfx::takeover_plan(r, paths, mode, install_premix, install_postmix)[i]]
            0 <= i < sysfx::takeover_plan(
                r,
                paths,
                mode,
                install_premix,
                install_postmix,
            ).len() ==> DEVICE_CLASSES_ROOT@.is_prefix_of(
                sysfx::takeover_plan(r, paths, mode, install_premix, install_postmix)[i].key_path,
            ),
    decreases paths.len(),
{
    if paths.len() > 0 {
        let t = paths.drop_last();
        assert forall|i: int| 0 <= i < t.len() implies sysfx::is_template(r, #[trigger] t[i]) by {
            assert(t[i] == paths[i]);
        }
        lemma_plan_places(r, t, mode, install_premix, install_postmix);
        assert(sysfx::is_template(r, paths[paths.len() - 1]));
    }
}

/// A takeover concerns no effect property of the endpoint but the mode effect,
/// and that one only where the mode does not use it.
proof fn lemma_takeover_spares(
    r: Seq<KeyView>,
    device_guid: Seq<char>,
    endpoint_path: Seq<char>,
    config: InstallConfig,
    name: Seq<char>,
)
    requires
        is_endpoint(endpoint_path, device_guid),
        config.install_mode == InstallMode::SfxMfx || !text::eq_ci(
            PKEY_FX_MODE_EFFECT_CLSID@,
            name,
        ),
    ensures
        registry::untouched(
            capx::takeover_ops(r, device_guid, endpoint_path, config),
            Hkey::LocalMachine,
            execute::fx_of(endpoint_path),
            name,
        ),
{
    let fx = execute::fx_of(endpoint_path);
    let paths = capx::endpoint_templates(r, endpoint_path);
    let props = registry::join(
        endpoint_path,
        crate::install::device::identity::PROPERTIES_KEY@,
    );
    sysfx::lemma_entries_present(
        r,
        sysfx::held(r, props, sysfx::PKEY_DEVICE_INSTANCE_ID@),
        sysfx::held(r, props, sysfx::PKEY_AUDIO_ENDPOINT_ASSOCIATION@),
    );
    lemma_plan_places(
        r,
        paths,
        config.install_mode,
        config.install_premix,
        config.install_postmix,
    );
    let plan = sysfx::takeover_plan(
        r,
        paths,
        config.install_mode,
        config.install_premix,
        config.install_postmix,
    );
    let list = capx::takeover_changes(r, endpoint_path, config);
    let ops = sysfx::change_ops(list);
    assert forall|i: int| 0 <= i < ops.len() implies !registry::touches(
        #[trigger] ops[i],
        Hkey::LocalMachine,
        fx,
        name,
    ) by {
        assert(ops[i] == sysfx::change_op(list[i]));
        if i < plan.len() {
            assert(list[i] == plan[i]);
            lemma_fx_apart(endpoint_path, device_guid, plan[i].key_path, device_guid);
        }
    }
    let kept = identity::op_if(
        list.len() > 0,
        identity::op_set_multi(
            child::record_path(device_guid),
            sysfx::SYSFX_BACKUP_VALUE@,
            capx::kept_lines(list),
        ),
    );
    assert(DEVICE_CLASSES_ROOT@.is_prefix_of(DEVICE_CLASSES_ROOT@)) by {
        assert(DEVICE_CLASSES_ROOT@.subrange(0, DEVICE_CLASSES_ROOT@.len() as int)
            =~= DEVICE_CLASSES_ROOT@);
    }
    lemma_fx_apart(endpoint_path, device_guid, DEVICE_CLASSES_ROOT@, device_guid);
    assert(registry::untouched(kept, Hkey::LocalMachine, fx, name));
    registry::lemma_untouched_concat(ops, kept, Hkey::LocalMachine, fx, name);
}

/// The text of an object that is not zero stands for it.
proof fn lemma_text_holds(g: GUID)
    requires
        !guid::is_zero(g),
    ensures
        read::slot_value_of(Some(ValueView::Sz(guid::guid_text(g)))) == SlotValue::Guid(g),
{
    guid::law_guid_text_round_trip(g);
    let t = guid::guid_text(g);
    assert(!text::is_ws(t[0]) && !text::is_ws(t[t.len() - 1]));
    text::lemma_trim_noop(t);
}

/// A slot that was given the text of an object holds that object.
proof fn lemma_slot_holds(r: Seq<KeyView>, fx_path: Seq<char>, slot: ApoSlot, g: GUID)
    requires
        registry::value_at(r, Hkey::LocalMachine, fx_path, types::slot_name(slot)) == Some(
            ValueView::Sz(guid::guid_text(g)),
        ),
        !guid::is_zero(g),
    ensures
        helpers::slot_at(r, fx_path, slot) == SlotValue::Guid(g),
{
    lemma_text_holds(g);
}

/// What follows the objects' entries concerns no slot that the mode uses.
proof fn lemma_later_ops_spare(
    r: Seq<KeyView>,
    device_guid: Seq<char>,
    endpoint_path: Seq<char>,
    config: InstallConfig,
    slot: ApoSlot,
)
    requires
        is_endpoint(endpoint_path, device_guid),
        slot == types::premix_of(config.install_mode) || slot == types::postmix_of(
            config.install_mode,
        ),
    ensures
        registry::untouched(
            helpers::processing_ops(
                execute::fx_of(endpoint_path),
                config.install_mode,
                config.install_premix,
                execute::uses_postmix(endpoint_path, config),
            ) + sysfx::enable_ops(execute::fx_of(endpoint_path)) + capx::takeover_ops(
                r,
                device_guid,
                endpoint_path,
                config,
            ),
            Hkey::LocalMachine,
            execute::fx_of(endpoint_path),
            types::slot_name(slot),
        ),
{
    let fx = execute::fx_of(endpoint_path);
    let name = types::slot_name(slot);
    let mode = config.install_mode;
    lemma_slot_apart(slot, types::slot_pid(types::premix_of(mode)) as nat);
    lemma_slot_apart(slot, types::slot_pid(types::postmix_of(mode)) as nat);
    let d = helpers::processing_ops(
        fx,
        mode,
        config.install_premix,
        execute::uses_postmix(endpoint_path, config),
    );
    let e = sysfx::enable_ops(fx);
    assert(registry::untouched(d, Hkey::LocalMachine, fx, name));
    assert(registry::untouched(e, Hkey::LocalMachine, fx, name));
    registry::lemma_untouched_concat(d, e, Hkey::LocalMachine, fx, name);
    lemma_takeover_spares(r, device_guid, endpoint_path, config, name);
    registry::lemma_untouched_concat(
        d + e,
        capx::takeover_ops(r, device_guid, endpoint_path, config),
        Hkey::LocalMachine,
        fx,
        name,
    );
}

/// The objects' own identifiers are not zero.
proof fn lemma_own_not_zero()
    ensures
        !guid::is_zero(clsid_pre_mix()),
        !guid::is_zero(clsid_post_mix()),
{
}

proof fn lemma_regroup(
    f: Seq<OpView>,
    rec: Seq<OpView>,
    a: Seq<OpView>,
    b: Seq<OpView>,
    c: Seq<OpView>,
    d: Seq<OpView>,
    e: Seq<OpView>,
    t: Seq<OpView>,
)
    ensures
        f + (rec + (a + b + c + d + e)) + t == (f + (rec + a)) + (b + (c + (d + e + t))),
{
    assert(a + b + c + d + e =~= a + (b + (c + (d + e))));
    assert(f + (rec + (a + b + c + d + e)) + t =~= (f + (rec + a)) + (b + (c + (d + e + t))));
}

/// The changes of an installation, told apart around those that put the objects
/// into their slots.
proof fn lemma_install_parts(
    r: Seq<KeyView>,
    device_guid: Seq<char>,
    endpoint_path: Seq<char>,
    config: InstallConfig,
) -> (head: Seq<OpView>)
    requires
        registry::has_key(r, Hkey::LocalMachine, endpoint_path),
    ensures
        ({
            let fx = execute::fx_of(endpoint_path);
            let mode = config.install_mode;
            let b = identity::op_if(
                config.install_premix,
                helpers::set_sz(
                    fx,
                    types::slot_name(types::premix_of(mode)),
                    guid::guid_text(clsid_pre_mix()),
                ),
            );
            let c = identity::op_if(
                execute::uses_postmix(endpoint_path, config),
                helpers::set_sz(
                    fx,
                    types::slot_name(types::postmix_of(mode)),
                    guid::guid_text(clsid_post_mix()),
                ),
            );
            let d = helpers::processing_ops(
                fx,
                mode,
                config.install_premix,
                execute::uses_postmix(endpoint_path, config),
            );
            &&& execute::install_ops(r, device_guid, endpoint_path, config) == head + (b + (c + (d
                + sysfx::enable_ops(fx) + capx::takeover_ops(
                execute::with_entries(r, device_guid, endpoint_path, config),
                device_guid,
                endpoint_path,
                config,
            ))))
            &&& registry::has_key(registry::apply_all(r, head), Hkey::LocalMachine, fx)
        }),
{
    let fx = execute::fx_of(endpoint_path);
    let mode = config.install_mode;
    let f = helpers::fx_ops(r, fx);
    let r1 = execute::with_fx(r, endpoint_path);
    if !registry::has_key(r, Hkey::LocalMachine, fx) {
        assert(f.drop_last() =~= Seq::<OpView>::empty());
        assert(registry::apply_all(r, f.drop_last()) == r);
        registry::law_created_key_exists(r, Hkey::LocalMachine, fx, Hkey::LocalMachine, fx);
    }
    let premix = helpers::kept_child(
        config.use_original_apo_premix,
        helpers::slot_at(r1, fx, types::premix_of(mode)),
    );
    let postmix = if execute::records(endpoint_path) {
        None
    } else {
        helpers::kept_child(
            config.use_original_apo_postmix,
            helpers::slot_at(r1, fx, types::postmix_of(mode)),
        )
    };
    let rec = helpers::record_ops(r1, device_guid, endpoint_path, fx, config, premix, postmix);
    let a = helpers::clear_ops(fx, mode, types::all_slots());
    let b = identity::op_if(
        config.install_premix,
        helpers::set_sz(
            fx,
            types::slot_name(types::premix_of(mode)),
            guid::guid_text(clsid_pre_mix()),
        ),
    );
    let c = identity::op_if(
        execute::uses_postmix(endpoint_path, config),
        helpers::set_sz(
            fx,
            types::slot_name(types::postmix_of(mode)),
            guid::guid_text(clsid_post_mix()),
        ),
    );
    let d = helpers::processing_ops(
        fx,
        mode,
        config.install_premix,
        execute::uses_postmix(endpoint_path, config),
    );
    let e = sysfx::enable_ops(fx);
    let t = capx::takeover_ops(
        execute::with_entries(r, device_guid, endpoint_path, config),
        device_guid,
        endpoint_path,
        config,
    );
    assert(execute::entry_ops(r1, device_guid, endpoint_path, config) == rec + (a + b + c + d + e));
    lemma_regroup(f, rec, a, b, c, d, e, t);
    execute::lemma_record_keeps_keys(
        r1,
        device_guid,
        endpoint_path,
        fx,
        config,
        premix,
        postmix,
    );
    execute::lemma_clear_ops_values(fx, mode, types::all_slots());
    assert(registry::keeps_keys(a));
    registry::lemma_keeps_keys_concat(rec, a);
    registry::law_keys_stay(r1, rec + a, Hkey::LocalMachine, fx);
    registry::lemma_apply_all_concat(r, f, rec + a);
    f + (rec + a)
}

/// One change, made.
proof fn lemma_apply_one(r: Seq<KeyView>, op: OpView)
    ensures
        registry::apply_all(r, seq![op]) == registry::apply(r, op),
{
    assert(seq![op].drop_last() =~= Seq::<OpView>::empty());
    assert(registry::apply_all(r, seq![op].drop_last()) == r);
}

/// After an installation each slot that it uses holds the object of this
/// library's that belongs there.
pub proof fn law_install_fills_slots(
    r: Seq<KeyView>,
    device_guid: Seq<char>,
    endpoint_path: Seq<char>,
    config: InstallConfig,
)
    requires
        info::endpoint_path(r, device_guid) == Some(endpoint_path),
    ensures
        ({
            let after = registry::apply_all(
                r,
                execute::install_ops(r, device_guid, endpoint_path, config),
            );
            let fx = execute::fx_of(endpoint_path);
            &&& config.install_premix ==> helpers::slot_at(
                after,
                fx,
                types::premix_of(config.install_mode),
            ) == SlotValue::Guid(clsid_pre_mix())
            &&& execute::uses_postmix(endpoint_path, config) ==> helpers::slot_at(
                after,
                fx,
                types::postmix_of(config.install_mode),
            ) == SlotValue::Guid(clsid_post_mix())
        }),
{
    let fx = execute::fx_of(endpoint_path);
    let mode = config.install_mode;
    let pre = types::premix_of(mode);
    let post = types::postmix_of(mode);
    let r2 = execute::with_entries(r, device_guid, endpoint_path, config);
    let head = lemma_install_parts(r, device_guid, endpoint_path, config);
    let set_pre = helpers::set_sz(fx, types::slot_name(pre), guid::guid_text(clsid_pre_mix()));
    let set_post = helpers::set_sz(fx, types::slot_name(post), guid::guid_text(clsid_post_mix()));
    let b = identity::op_if(config.install_premix, set_pre);
    let c = identity::op_if(execute::uses_postmix(endpoint_path, config), set_post);
    let tail = helpers::processing_ops(
        fx,
        mode,
        config.install_premix,
        execute::uses_postmix(endpoint_path, config),
    ) + sysfx::enable_ops(fx) + capx::takeover_ops(r2, device_guid, endpoint_path, config);
    let ra = registry::apply_all(r, head);
    let rb = registry::apply_all(ra, b);
    let rc = registry::apply_all(rb, c);
    let rd = registry::apply_all(rc, tail);
    registry::lemma_apply_all_concat(r, head, b + (c + tail));
    registry::lemma_apply_all_concat(ra, b, c + tail);
    registry::lemma_apply_all_concat(rb, c, tail);
    lemma_own_not_zero();
    types::law_mode_slots(mode);
    types::law_slot_names_distinct(post, pre);
    types::law_slot_names_distinct(pre, post);
    registry::law_keys_stay(ra, b, Hkey::LocalMachine, fx);
    if config.install_premix {
        lemma_apply_one(ra, set_pre);
        registry::law_read_after_write(
            ra,
            Hkey::LocalMachine,
            fx,
            types::slot_name(pre),
            ValueView::Sz(guid::guid_text(clsid_pre_mix())),
            Hkey::LocalMachine,
            fx,
            types::slot_name(pre),
        );
        registry::law_untouched_value_stays(rb, c, Hkey::LocalMachine, fx, types::slot_name(pre));
        lemma_later_ops_spare(r2, device_guid, endpoint_path, config, pre);
        registry::law_untouched_value_stays(
            rc,
            tail,
            Hkey::LocalMachine,
            fx,
            types::slot_name(pre),
        );
        lemma_slot_holds(rd, fx, pre, clsid_pre_mix());
    }
    if execute::uses_postmix(endpoint_path, config) {
        lemma_apply_one(rb, set_post);
        registry::law_read_after_write(
            rb,
            Hkey::LocalMachine,
            fx,
            types::slot_name(post),
            ValueView::Sz(guid::guid_text(clsid_post_mix())),
            Hkey::LocalMachine,
            fx,
            types::slot_name(post),
        );
        lemma_later_ops_spare(r2, device_guid, endpoint_path, config, post);
        registry::law_untouched_value_stays(
            rc,
            tail,
            Hkey::LocalMachine,
            fx,
            types::slot_name(post),
        );
        lemma_slot_holds(rd, fx, post, clsid_post_mix());
    }
}

/// After an installation the endpoint has a record, and its effect properties
/// hold the version.
pub proof fn law_install_is_recorded(
    r: Seq<KeyView>,
    device_guid: Seq<char>,
    endpoint_path: Seq<char>,
    config: InstallConfig,
)
    requires
        info::endpoint_path(r, device_guid) == Some(endpoint_path),
    ensures
        ({
            let after = registry::apply_all(
                r,
                execute::install_ops(r, device_guid, endpoint_path, config),
            );
            &&& registry::has_key(after, Hkey::LocalMachine, child::record_path(device_guid))
            &&& registry::value_at(
                after,
                Hkey::LocalMachine,
                execute::fx_of(endpoint_path),
                VERSION_VALUE@,
            ) == Some(ValueView::Sz(INSTALL_VERSION@))
        }),
{
    let fx = execute::fx_of(endpoint_path);
    let mode = config.install_mode;
    let f = helpers::fx_ops(r, fx);
    let r1 = execute::with_fx(r, endpoint_path);
    lemma_fx_there(r, endpoint_path);
    let premix = helpers::kept_child(
        config.use_original_apo_premix,
        helpers::slot_at(r1, fx, types::premix_of(mode)),
    );
    let postmix = if execute::records(endpoint_path) {
        None
    } else {
        helpers::kept_child(
            config.use_original_apo_postmix,
            helpers::slot_at(r1, fx, types::postmix_of(mode)),
        )
    };
    let rec = helpers::record_ops(r1, device_guid, endpoint_path, fx, config, premix, postmix);
    let obj = execute::object_ops(endpoint_path, config);
    let r2 = registry::apply_all(r1, rec);
    let r3 = registry::apply_all(r2, obj);
    registry::lemma_apply_all_concat(r1, rec, obj);
    let t = capx::takeover_ops(r3, device_guid, endpoint_path, config);
    registry::lemma_apply_all_concat(r, f, rec + obj);
    registry::lemma_apply_all_concat(r, f + (rec + obj), t);
    lemma_record_written(r1, device_guid, endpoint_path, fx, config, premix, postmix);
    execute::lemma_objects_keep_keys(endpoint_path, config);
    registry::law_keys_stay(r2, obj, Hkey::LocalMachine, child::record_path(device_guid));
    lemma_takeover_keeps_keys(r3, device_guid, endpoint_path, config);
    registry::law_keys_stay(r3, t, Hkey::LocalMachine, child::record_path(device_guid));
    lemma_objects_spare_version(endpoint_path, config);
    registry::law_untouched_value_stays(r2, obj, Hkey::LocalMachine, fx, VERSION_VALUE@);
    lemma_slot_apart(ApoSlot::Mfx, 0);
    reveal_strlit("version");
    reveal_strlit("{D04E05A6-594B-4FB6-A80D-01AF5EED7D1D},6");
    lemma_differ(PKEY_FX_MODE_EFFECT_CLSID@, VERSION_VALUE@, 0);
    lemma_takeover_spares(r3, device_guid, endpoint_path, config, VERSION_VALUE@);
    registry::law_untouched_value_stays(r3, t, Hkey::LocalMachine, fx, VERSION_VALUE@);
}

/// Making sure of the effect properties does so.
proof fn lemma_fx_there(r: Seq<KeyView>, endpoint_path: Seq<char>)
    ensures
        registry::has_key(
            execute::with_fx(r, endpoint_path),
            Hkey::LocalMachine,
            execute::fx_of(endpoint_path),
        ),
        registry::has_key(r, Hkey::LocalMachine, execute::fx_of(endpoint_path))
            ==> execute::with_fx(r, endpoint_path) == r,
{
    let fx = execute::fx_of(endpoint_path);
    if !registry::has_key(r, Hkey::LocalMachine, fx) {
        lemma_apply_one(r, OpView::CreateKey { root: Hkey::LocalMachine, path: fx });
        registry::law_created_key_exists(r, Hkey::LocalMachine, fx, Hkey::LocalMachine, fx);
    }
}

/// A takeover deletes no key.
proof fn lemma_takeover_keeps_keys(
    r: Seq<KeyView>,
    device_guid: Seq<char>,
    endpoint_path: Seq<char>,
    config: InstallConfig,
)
    ensures
        registry::keeps_keys(capx::takeover_ops(r, device_guid, endpoint_path, config)),
{
    let list = capx::takeover_changes(r, endpoint_path, config);
    let ops = sysfx::change_ops(list);
    assert(registry::keeps_keys(ops));
}

/// The record is there once it is written, and the version stands among the
/// effect properties.
#[verifier::spinoff_prover]
#[verifier::rlimit(40)]
proof fn lemma_record_written(
    r: Seq<KeyView>,
    device_guid: Seq<char>,
    endpoint_path: Seq<char>,
    fx_path: Seq<char>,
    config: InstallConfig,
    premix: Option<GUID>,
    postmix: Option<GUID>,
)
    requires
        registry::has_key(r, Hkey::LocalMachine, fx_path),
    ensures
        ({
            let after = registry::apply_all(
                r,
                helpers::record_ops(r, device_guid, endpoint_path, fx_path, config, premix, postmix),
            );
            &&& registry::has_key(after, Hkey::LocalMachine, child::record_path(device_guid))
            &&& registry::value_at(after, Hkey::LocalMachine, fx_path, VERSION_VALUE@) == Some(
                ValueView::Sz(INSTALL_VERSION@),
            )
        }),
{
    let p = child::record_path(device_guid);
    let id = identity::live_identity(r, endpoint_path);
    let history = helpers::record_history(r, device_guid, id);
    let a = OpView::CreateKey { root: Hkey::LocalMachine, path: p };
    let b = helpers::slot_record_ops(r, p, fx_path, config.install_mode, premix, postmix);
    let c = identity::identity_ops(p, id, history);
    let d = helpers::switch_ops(fx_path, config);
    let all = helpers::record_ops(r, device_guid, endpoint_path, fx_path, config, premix, postmix);
    execute::lemma_record_keeps_keys(
        r,
        device_guid,
        endpoint_path,
        fx_path,
        config,
        premix,
        postmix,
    );
    let rest = b + c + d;
    assert(all =~= seq![a] + rest);
    assert forall|i: int| 0 <= i < rest.len() implies !((#[trigger] rest[i]) is DeleteTree) by {
        assert(rest[i] == all[i + 1]);
    }
    registry::lemma_apply_all_concat(r, seq![a], rest);
    lemma_apply_one(r, a);
    registry::law_created_key_exists(r, Hkey::LocalMachine, p, Hkey::LocalMachine, p);
    registry::law_keys_stay(registry::apply(r, a), rest, Hkey::LocalMachine, p);
    let init = all.drop_last();
    assert forall|i: int| 0 <= i < init.len() implies !((#[trigger] init[i]) is DeleteTree) by {
        assert(init[i] == all[i]);
    }
    registry::law_keys_stay(r, init, Hkey::LocalMachine, fx_path);
    assert(all.last() == d[2]);
    registry::law_read_after_write(
        registry::apply_all(r, init),
        Hkey::LocalMachine,
        fx_path,
        VERSION_VALUE@,
        ValueView::Sz(INSTALL_VERSION@),
        Hkey::LocalMachine,
        fx_path,
        VERSION_VALUE@,
    );
}

/// Putting the objects into their slots does not concern the version.
proof fn lemma_objects_spare_version(endpoint_path: Seq<char>, config: InstallConfig)
    ensures
        registry::untouched(
            execute::object_ops(endpoint_path, config),
            Hkey::LocalMachine,
            execute::fx_of(endpoint_path),
            VERSION_VALUE@,
        ),
{
    let fx = execute::fx_of(endpoint_path);
    let mode = config.install_mode;
    let h = Hkey::LocalMachine;
    let name = VERSION_VALUE@;
    reveal_strlit("version");
    reveal_strlit("{d3993a3f-99c2-4402-b5ec-a92a0367664b},");
    reveal_strlit("DisableEnhancements");
    reveal_strlit("{1da5d803-d492-4edd-8c23-e0c0ffee7f0e},5");
    reveal_strlit("{d04e05a6-594b-4fb6-a80d-01af5eed7d1d},");
    lemma_differ(DISABLE_ENHANCEMENTS_VALUE@, name, 0);
    lemma_differ(DISABLE_SYSFX_VALUE@, name, 0);
    let a = helpers::clear_ops(fx, mode, types::all_slots());
    lemma_clear_spares(fx, mode, types::all_slots(), name);
    let pre = types::premix_of(mode);
    let post = types::postmix_of(mode);
    lemma_differ(types::slot_name(pre), name, 0);
    lemma_differ(types::slot_name(post), name, 0);
    lemma_differ(PROCESSING_MODES_PREFIX@ + text::decimal(types::slot_pid(pre) as nat), name, 0);
    lemma_differ(PROCESSING_MODES_PREFIX@ + text::decimal(types::slot_pid(post) as nat), name, 0);
    let b = identity::op_if(
        config.install_premix,
        helpers::set_sz(fx, types::slot_name(pre), guid::guid_text(clsid_pre_mix())),
    );
    let c = identity::op_if(
        execute::uses_postmix(endpoint_path, config),
        helpers::set_sz(fx, types::slot_name(post), guid::guid_text(clsid_post_mix())),
    );
    let d = helpers::processing_ops(
        fx,
        mode,
        config.install_premix,
        execute::uses_postmix(endpoint_path, config),
    );
    registry::lemma_untouched_concat(a, b, h, fx, name);
    registry::lemma_untouched_concat(a + b, c, h, fx, name);
    assert(registry::untouched(d, h, fx, name));
    registry::lemma_untouched_concat(a + b + c, d, h, fx, name);
    registry::lemma_untouched_concat(a + b + c + d, sysfx::enable_ops(fx), h, fx, name);
}

/// Clearing slots concerns slots alone.
proof fn lemma_clear_spares(
    fx_path: Seq<char>,
    mode: InstallMode,
    slots: Seq<ApoSlot>,
    name: Seq<char>,
)
    requires
        name.len() > 0,
        text::lower_char(name[0]) != '{',
    ensures
        registry::untouched(
            helpers::clear_ops(fx_path, mode, slots),
            Hkey::LocalMachine,
            fx_path,
            name,
        ),
    decreases slots.len(),
{
    if slots.len() > 0 {
        lemma_clear_spares(fx_path, mode, slots.drop_last(), name);
        reveal_strlit("{d04e05a6-594b-4fb6-a80d-01af5eed7d1d},");
        lemma_differ(types::slot_name(slots.last()), name, 0);
    }
}

/// Whether none of some changes creates a key at a place.
pub open spec fn creates_elsewhere(ops: Seq<OpView>, path: Seq<char>) -> bool {
    forall|i: int|
        0 <= i < ops.len() ==> ((#[trigger] ops[i]) matches OpView::CreateKey { root, path: p }
            ==> !text::eq_ci(p, path))
}

proof fn lemma_elsewhere_concat(a: Seq<OpView>, b: Seq<OpView>, path: Seq<char>)
    requires
        creates_elsewhere(a, path),
        creates_elsewhere(b, path),
    ensures
        creates_elsewhere(a + b, path),
{
    let c = a + b;
    assert forall|i: int| 0 <= i < c.len() implies ((
    #[trigger] c[i]) matches OpView::CreateKey { root, path: p } ==> !text::eq_ci(p, path)) by {
        if i < a.len() {
            assert(c[i] == a[i]);
        } else {
            assert(c[i] == b[i - a.len()]);
        }
    }
}

proof fn lemma_record_elsewhere(
    r: Seq<KeyView>,
    device_guid: Seq<char>,
    endpoint_path: Seq<char>,
    fx_path: Seq<char>,
    config: InstallConfig,
    premix: Option<GUID>,
    postmix: Option<GUID>,
    path: Seq<char>,
)
    requires
        !text::eq_ci(child::record_path(device_guid), path),
    ensures
        creates_elsewhere(
            helpers::record_ops(r, device_guid, endpoint_path, fx_path, config, premix, postmix),
            path,
        ),
{
    let p = child::record_path(device_guid);
    let id = identity::live_identity(r, endpoint_path);
    let history = helpers::record_history(r, device_guid, id);
    let a = seq![OpView::CreateKey { root: Hkey::LocalMachine, path: p }];
    let b = helpers::slot_record_ops(r, p, fx_path, config.install_mode, premix, postmix);
    let c = identity::identity_ops(p, id, history);
    lemma_slot_record_elsewhere(r, p, fx_path, config.install_mode, premix, postmix, path);
    lemma_identity_elsewhere(p, id, history, path);
    lemma_elsewhere_concat(a, b, path);
    lemma_elsewhere_concat(a + b, c, path);
    lemma_elsewhere_concat(a + b + c, helpers::switch_ops(fx_path, config), path);
}

proof fn lemma_slot_record_elsewhere(
    r: Seq<KeyView>,
    p: Seq<char>,
    fx_path: Seq<char>,
    mode: InstallMode,
    premix: Option<GUID>,
    postmix: Option<GUID>,
    path: Seq<char>,
)
    ensures
        creates_elsewhere(helpers::slot_record_ops(r, p, fx_path, mode, premix, postmix), path),
{
}

proof fn lemma_identity_elsewhere(
    p: Seq<char>,
    id: identity::IdentityView,
    history: Seq<Seq<char>>,
    path: Seq<char>,
)
    ensures
        creates_elsewhere(identity::identity_ops(p, id, history), path),
{
}

proof fn lemma_objects_elsewhere(endpoint_path: Seq<char>, config: InstallConfig, path: Seq<char>)
    ensures
        creates_elsewhere(execute::object_ops(endpoint_path, config), path),
{
    let fx = execute::fx_of(endpoint_path);
    let mode = config.install_mode;
    let a = helpers::clear_ops(fx, mode, types::all_slots());
    execute::lemma_clear_ops_values(fx, mode, types::all_slots());
    assert(creates_elsewhere(a, path));
    let b = identity::op_if(
        config.install_premix,
        helpers::set_sz(
            fx,
            types::slot_name(types::premix_of(mode)),
            guid::guid_text(clsid_pre_mix()),
        ),
    );
    let c = identity::op_if(
        execute::uses_postmix(endpoint_path, config),
        helpers::set_sz(
            fx,
            types::slot_name(types::postmix_of(mode)),
            guid::guid_text(clsid_post_mix()),
        ),
    );
    let d = helpers::processing_ops(
        fx,
        mode,
        config.install_premix,
        execute::uses_postmix(endpoint_path, config),
    );
    lemma_elsewhere_concat(a, b, path);
    lemma_elsewhere_concat(a + b, c, path);
    assert(creates_elsewhere(d, path));
    lemma_elsewhere_concat(a + b + c, d, path);
    lemma_elsewhere_concat(a + b + c + d, sysfx::enable_ops(fx), path);
}

/// The effect properties of a recording endpoint do not stand at the place of a
/// playback endpoint.
proof fn lemma_capture_apart(device_guid: Seq<char>, other_guid: Seq<char>)
    ensures
        !text::eq_ci(
            execute::fx_of(registry::join(CAPTURE_PATH@, device_guid)),
            registry::join(RENDER_PATH@, other_guid),
        ),
        !text::eq_ci(
            child::record_path(device_guid),
            registry::join(RENDER_PATH@, other_guid),
        ),
{
    let fx = execute::fx_of(registry::join(CAPTURE_PATH@, device_guid));
    let render = registry::join(RENDER_PATH@, other_guid);
    let rec = child::record_path(device_guid);
    reveal_strlit("SOFTWARE\\Microsoft\\Windows\\CurrentVersion\\MMDevices\\Audio\\Render");
    reveal_strlit("SOFTWARE\\Microsoft\\Windows\\CurrentVersion\\MMDevices\\Audio\\Capture");
    reveal_strlit("SOFTWARE\\VxAPO\\Child APOs");
    assert(fx[58] == 'C');
    assert(render[58] == 'R');
    assert(render[9] == 'M');
    assert(rec[9] == 'V');
    lemma_differ(fx, render, 58);
    lemma_differ(rec, render, 9);
}

/// An installation makes whole what is installed on the endpoint, and the endpoint
/// stays where it is.
pub proof fn law_install_is_whole(
    r: Seq<KeyView>,
    device_guid: Seq<char>,
    endpoint_path: Seq<char>,
    config: InstallConfig,
)
    requires
        info::endpoint_path(r, device_guid) == Some(endpoint_path),
    ensures
        ({
            let after = registry::apply_all(
                r,
                execute::install_ops(r, device_guid, endpoint_path, config),
            );
            &&& info::endpoint_path(after, device_guid) == Some(endpoint_path)
            &&& detect::healthy(after, device_guid)
        }),
{
    let h = Hkey::LocalMachine;
    let fx = execute::fx_of(endpoint_path);
    let mode = config.install_mode;
    let r1 = execute::with_fx(r, endpoint_path);
    let r2 = execute::with_entries(r, device_guid, endpoint_path, config);
    let f = helpers::fx_ops(r, fx);
    let e = execute::entry_ops(r1, device_guid, endpoint_path, config);
    let t = capx::takeover_ops(r2, device_guid, endpoint_path, config);
    law_install_is_recorded(r, device_guid, endpoint_path, config);
    execute::lemma_entries_keep_keys(r1, device_guid, endpoint_path, config);
    lemma_takeover_keeps_keys(r2, device_guid, endpoint_path, config);
    registry::lemma_keeps_keys_concat(f, e);
    registry::lemma_keeps_keys_concat(f + e, t);
    registry::law_keys_stay(r, f + e + t, h, endpoint_path);
    let render = registry::join(RENDER_PATH@, device_guid);
    if !registry::has_key(r, h, render) {
        let premix = helpers::kept_child(
            config.use_original_apo_premix,
            helpers::slot_at(r1, fx, types::premix_of(mode)),
        );
        let postmix = if execute::records(endpoint_path) {
            None
        } else {
            helpers::kept_child(
                config.use_original_apo_postmix,
                helpers::slot_at(r1, fx, types::postmix_of(mode)),
            )
        };
        lemma_capture_apart(device_guid, device_guid);
        lemma_record_elsewhere(
            r1,
            device_guid,
            endpoint_path,
            fx,
            config,
            premix,
            postmix,
            render,
        );
        lemma_objects_elsewhere(endpoint_path, config, render);
        lemma_elsewhere_concat(
            helpers::record_ops(r1, device_guid, endpoint_path, fx, config, premix, postmix),
            execute::object_ops(endpoint_path, config),
            render,
        );
        assert(creates_elsewhere(f, render));
        let changes = sysfx::change_ops(capx::takeover_changes(r2, endpoint_path, config));
        assert(creates_elsewhere(changes, render));
        assert(creates_elsewhere(t, render));
        lemma_elsewhere_concat(f, e, render);
        lemma_elsewhere_concat(f + e, t, render);
        registry::law_absent_key_stays_absent(r, f + e + t, h, render);
    }
}

// ---------------------------------------------------------------------------
// Removing an installation
// ---------------------------------------------------------------------------
/// What is left of a slot once this library's objects are taken out of some.
proof fn lemma_vacated_value(
    r: Seq<KeyView>,
    fx_path: Seq<char>,
    slots: Seq<ApoSlot>,
    slot: ApoSlot,
)
    ensures
        registry::value_at(
            registry::apply_all(r, execute::vacate_ops(r, fx_path, slots)),
            Hkey::LocalMachine,
            fx_path,
            types::slot_name(slot),
        ) == (if slots.contains(slot) && execute::holds_own(r, fx_path, slot) {
            None
        } else {
            registry::value_at(r, Hkey::LocalMachine, fx_path, types::slot_name(slot))
        }),
    decreases slots.len(),
{
    if slots.len() > 0 {
        let t = slots.drop_last();
        let last = slots.last();
        lemma_vacated_value(r, fx_path, t, slot);
        let before = execute::vacate_ops(r, fx_path, t);
        let ops = identity::op_if(
            execute::holds_own(r, fx_path, last),
            helpers::clear_op(fx_path, last),
        );
        let r1 = registry::apply_all(r, before);
        registry::lemma_apply_all_concat(r, before, ops);
        assert(slots =~= t.push(last));
        assert(slots.contains(slot) == (t.contains(slot) || last == slot)) by {
            if t.contains(slot) {
                let i = choose|i: int| 0 <= i < t.len() && t[i] == slot;
                assert(slots[i] == slot);
            }
            if last == slot {
                assert(slots[slots.len() - 1] == slot);
            }
            if slots.contains(slot) && last != slot {
                let i = choose|i: int| 0 <= i < slots.len() && slots[i] == slot;
                assert(t[i] == slot);
            }
        }
        types::law_slot_names_distinct(last, slot);
        if execute::holds_own(r, fx_path, last) {
            lemma_apply_one(r1, helpers::clear_op(fx_path, last));
            registry::law_deleted_value_is_gone(
                r1,
                Hkey::LocalMachine,
                fx_path,
                types::slot_name(last),
                Hkey::LocalMachine,
                fx_path,
                types::slot_name(slot),
            );
        }
    }
}

/// The changes that give default effects are made at templates.
proof fn lemma_default_places(r: Seq<KeyView>, paths: Seq<Seq<char>>)
    requires
        sysfx::all_templates(r, paths),
    ensures
        forall|i: int|
            0 <= i < sysfx::defaults_plan(r, paths).len() ==> DEVICE_CLASSES_ROOT@.is_prefix_of(
                (#[trigger] sysfx::defaults_plan(r, paths)[i]).key_path,
            ),
    decreases paths.len(),
{
    if paths.len() > 0 {
        let t = paths.drop_last();
        assert forall|i: int| 0 <= i < t.len() implies sysfx::is_template(r, #[trigger] t[i]) by {
            assert(t[i] == paths[i]);
        }
        lemma_default_places(r, t);
        assert(sysfx::is_template(r, paths[paths.len() - 1]));
    }
}

/// What is left of a slot once objects are put back into some.
proof fn lemma_refilled_value(
    r: Seq<KeyView>,
    r1: Seq<KeyView>,
    device_guid: Seq<char>,
    fx_path: Seq<char>,
    slots: Seq<ApoSlot>,
    slot: ApoSlot,
)
    requires
        registry::has_key(r1, Hkey::LocalMachine, fx_path),
    ensures
        ({
            let after = registry::apply_all(
                r1,
                execute::refill_ops(r, device_guid, fx_path, slots),
            );
            &&& registry::has_key(after, Hkey::LocalMachine, fx_path)
            &&& registry::value_at(after, Hkey::LocalMachine, fx_path, types::slot_name(slot)) == (
            match execute::put_back(r, device_guid, fx_path, slot) {
                Some(g) if slots.contains(slot) => Some(ValueView::Sz(guid::guid_text(g))),
                _ => registry::value_at(
                    r1,
                    Hkey::LocalMachine,
                    fx_path,
                    types::slot_name(slot),
                ),
            })
        }),
    decreases slots.len(),
{
    if slots.len() > 0 {
        let t = slots.drop_last();
        let last = slots.last();
        lemma_refilled_value(r, r1, device_guid, fx_path, t, slot);
        let before = execute::refill_ops(r, device_guid, fx_path, t);
        let back = execute::put_back(r, device_guid, fx_path, last);
        let ops = helpers::set_guid(fx_path, types::slot_name(last), back);
        let r2 = registry::apply_all(r1, before);
        registry::lemma_apply_all_concat(r1, before, ops);
        assert(slots =~= t.push(last));
        assert(slots.contains(slot) == (t.contains(slot) || last == slot)) by {
            if t.contains(slot) {
                let i = choose|i: int| 0 <= i < t.len() && t[i] == slot;
                assert(slots[i] == slot);
            }
            if last == slot {
                assert(slots[slots.len() - 1] == slot);
            }
            if slots.contains(slot) && last != slot {
                let i = choose|i: int| 0 <= i < slots.len() && slots[i] == slot;
                assert(t[i] == slot);
            }
        }
        types::law_slot_names_distinct(last, slot);
        match back {
            Some(g) => {
                let op = helpers::set_sz(fx_path, types::slot_name(last), guid::guid_text(g));
                lemma_apply_one(r2, op);
                registry::law_value_changes_keep_keys(r2, op, Hkey::LocalMachine, fx_path);
                registry::law_read_after_write(
                    r2,
                    Hkey::LocalMachine,
                    fx_path,
                    types::slot_name(last),
                    ValueView::Sz(guid::guid_text(g)),
                    Hkey::LocalMachine,
                    fx_path,
                    types::slot_name(slot),
                );
                assert(text::eq_ci(fx_path, fx_path));
            },
            None => {},
        }
    }
}

/// Whether some changes are of values of one key alone.
pub open spec fn only_at(ops: Seq<OpView>, path: Seq<char>) -> bool {
    forall|i: int|
        0 <= i < ops.len() ==> match #[trigger] ops[i] {
            OpView::SetValue { root, path: p, .. } => root == Hkey::LocalMachine && p == path,
            OpView::DeleteValue { root, path: p, .. } => root == Hkey::LocalMachine && p == path,
            _ => false,
        }
}

proof fn lemma_hand_over_places(
    r: Seq<KeyView>,
    device_guid: Seq<char>,
    fx_path: Seq<char>,
    slots: Seq<ApoSlot>,
)
    ensures
        only_at(execute::vacate_ops(r, fx_path, slots), fx_path),
        only_at(execute::refill_ops(r, device_guid, fx_path, slots), fx_path),
    decreases slots.len(),
{
    if slots.len() > 0 {
        lemma_hand_over_places(r, device_guid, fx_path, slots.drop_last());
    }
}

/// What a slot holds once this library's objects are out of their slots: the object
/// that was put back into it, or what it held where it held none of them.
pub open spec fn handed_over_value(
    r: Seq<KeyView>,
    device_guid: Seq<char>,
    fx_path: Seq<char>,
    slot: ApoSlot,
) -> Option<ValueView> {
    if execute::holds_own(r, fx_path, slot) {
        match helpers::backup_of(r, device_guid, slot) {
            Some(g) => Some(ValueView::Sz(guid::guid_text(g))),
            None => None,
        }
    } else {
        registry::value_at(r, Hkey::LocalMachine, fx_path, types::slot_name(slot))
    }
}

proof fn lemma_all_slots(slot: ApoSlot)
    ensures
        types::all_slots().contains(slot),
{
    let all = types::all_slots();
    assert(all[0] == ApoSlot::Lfx && all[1] == ApoSlot::Gfx && all[2] == ApoSlot::Sfx && all[3]
        == ApoSlot::Mfx && all[4] == ApoSlot::Efx);
}

proof fn lemma_handed_over(
    r: Seq<KeyView>,
    device_guid: Seq<char>,
    endpoint_path: Seq<char>,
    slot: ApoSlot,
)
    requires
        is_endpoint(endpoint_path, device_guid),
        registry::has_key(r, Hkey::LocalMachine, execute::fx_of(endpoint_path)),
    ensures
        ({
            let fx = execute::fx_of(endpoint_path);
            let after = execute::handed_over(r, device_guid, endpoint_path);
            &&& registry::has_key(after, Hkey::LocalMachine, fx)
            &&& registry::value_at(after, Hkey::LocalMachine, fx, types::slot_name(slot))
                == handed_over_value(r, device_guid, fx, slot)
            &&& capx::kept_effects(after, device_guid) == capx::kept_effects(r, device_guid)
        }),
{
    let h = Hkey::LocalMachine;
    let fx = execute::fx_of(endpoint_path);
    let all = types::all_slots();
    let v = execute::vacate_ops(r, fx, all);
    let f = execute::refill_ops(r, device_guid, fx, all);
    let p = child::record_path(device_guid);
    registry::lemma_apply_all_concat(r, v, f);
    lemma_all_slots(slot);
    lemma_hand_over_places(r, device_guid, fx, all);
    lemma_vacated_value(r, fx, all, slot);
    registry::law_keys_stay(r, v, h, fx);
    lemma_refilled_value(r, registry::apply_all(r, v), device_guid, fx, all, slot);
    assert(DEVICE_CLASSES_ROOT@.is_prefix_of(DEVICE_CLASSES_ROOT@)) by {
        assert(DEVICE_CLASSES_ROOT@.subrange(0, DEVICE_CLASSES_ROOT@.len() as int)
            =~= DEVICE_CLASSES_ROOT@);
    }
    lemma_fx_apart(endpoint_path, device_guid, DEVICE_CLASSES_ROOT@, device_guid);
    let ops = v + f;
    assert(registry::untouched(ops, h, p, sysfx::SYSFX_BACKUP_VALUE@)) by {
        assert forall|i: int| 0 <= i < ops.len() implies !registry::touches(
            #[trigger] ops[i],
            h,
            p,
            sysfx::SYSFX_BACKUP_VALUE@,
        ) by {
            if i < v.len() {
                assert(ops[i] == v[i]);
            } else {
                assert(ops[i] == f[i - v.len()]);
            }
        }
    }
    registry::law_untouched_value_stays(r, ops, h, p, sysfx::SYSFX_BACKUP_VALUE@);
}

/// The effect of a slot that a backup keeps.
pub open spec fn effect_of(b: sysfx::BackupView, slot: ApoSlot) -> Option<Seq<char>> {
    match slot {
        ApoSlot::Sfx => b.stream,
        ApoSlot::Mfx => b.mode,
        _ => None,
    }
}

/// The effect of a slot that backups keep of the effect properties at a place: the
/// last one.
pub open spec fn kept_effect(list: Seq<sysfx::BackupView>, fx_path: Seq<char>, slot: ApoSlot) -> Option<
    Seq<char>,
>
    decreases list.len(),
{
    if list.len() == 0 {
        None
    } else if text::eq_ci(list.last().key_path, fx_path) && effect_of(list.last(), slot) is Some {
        effect_of(list.last(), slot)
    } else {
        kept_effect(list.drop_last(), fx_path, slot)
    }
}

/// The slots that an endpoint's two effects stand for.
proof fn lemma_effect_slots(slot: ApoSlot)
    ensures
        text::eq_ci(sysfx::PKEY_FX_STREAM_EFFECT_CLSID@, types::slot_name(slot)) == (slot
            == ApoSlot::Sfx),
        text::eq_ci(PKEY_FX_MODE_EFFECT_CLSID@, types::slot_name(slot)) == (slot == ApoSlot::Mfx),
{
    let name = types::slot_name(slot);
    reveal_strlit("{d04e05a6-594b-4fb6-a80d-01af5eed7d1d},");
    reveal_strlit("{D04E05A6-594B-4FB6-A80D-01AF5EED7D1D},5");
    reveal_strlit("{D04E05A6-594B-4FB6-A80D-01AF5EED7D1D},6");
    let n = SLOT_NAME_PREFIX@.len() as int;
    reveal_with_fuel(text::decimal, 2);
    assert(name[n] == text::digit_char(types::slot_pid(slot) as nat));
    assert(name.len() == 40);
    if slot == ApoSlot::Sfx {
        assert(text::ascii_lower(name) =~= text::ascii_lower(
            sysfx::PKEY_FX_STREAM_EFFECT_CLSID@,
        ));
    } else {
        lemma_differ(sysfx::PKEY_FX_STREAM_EFFECT_CLSID@, name, n);
    }
    if slot == ApoSlot::Mfx {
        assert(text::ascii_lower(name) =~= text::ascii_lower(PKEY_FX_MODE_EFFECT_CLSID@));
    } else {
        lemma_differ(PKEY_FX_MODE_EFFECT_CLSID@, name, n);
    }
}

/// What giving back one value of a place leaves of a slot.
proof fn lemma_restore_one(
    r: Seq<KeyView>,
    r1: Seq<KeyView>,
    path: Seq<char>,
    effect: Seq<char>,
    kept: Option<Seq<char>>,
    fx_path: Seq<char>,
    slot: ApoSlot,
)
    requires
        registry::has_key(r1, Hkey::LocalMachine, fx_path),
        !sysfx::own(sysfx::held(r, fx_path, types::slot_name(slot))),
    ensures
        ({
            let list = sysfx::restore_value(path, effect, sysfx::held(r, path, effect), kept);
            let after = registry::apply_all(r1, sysfx::change_ops(list));
            let name = types::slot_name(slot);
            &&& registry::has_key(after, Hkey::LocalMachine, fx_path)
            &&& registry::value_at(after, Hkey::LocalMachine, fx_path, name) == (if text::eq_ci(
                path,
                fx_path,
            ) && text::eq_ci(effect, name) && kept is Some && sysfx::held(r, fx_path, name)
                is None {
                Some(ValueView::Sz(kept.unwrap()))
            } else {
                registry::value_at(r1, Hkey::LocalMachine, fx_path, name)
            })
        }),
{
    let h = Hkey::LocalMachine;
    let name = types::slot_name(slot);
    let list = sysfx::restore_value(path, effect, sysfx::held(r, path, effect), kept);
    let ops = sysfx::change_ops(list);
    if text::eq_ci(path, fx_path) && text::eq_ci(effect, name) {
        crate::undo::lemma_value_at_ci(r, h, path, effect, fx_path, name);
    }
    if list.len() == 0 {
        assert(ops =~= Seq::<OpView>::empty());
    } else {
        let op = sysfx::change_op(list[0]);
        assert(ops =~= seq![op]);
        lemma_apply_one(r1, op);
        registry::law_value_changes_keep_keys(r1, op, h, fx_path);
        match list[0].target {
            Some(t) => {
                if registry::has_key(r1, h, path) {
                    registry::law_read_after_write(
                        r1,
                        h,
                        path,
                        effect,
                        ValueView::Sz(t),
                        h,
                        fx_path,
                        name,
                    );
                } else {
                    registry::lemma_values_at_ci(r1, h, path, fx_path);
                }
            },
            None => {
                registry::law_deleted_value_is_gone(r1, h, path, effect, h, fx_path, name);
            },
        }
    }
}

/// What giving back kept effects leaves of a slot.
proof fn lemma_restored_value(
    r: Seq<KeyView>,
    list: Seq<sysfx::BackupView>,
    fx_path: Seq<char>,
    slot: ApoSlot,
)
    requires
        registry::has_key(r, Hkey::LocalMachine, fx_path),
        !sysfx::own(sysfx::held(r, fx_path, types::slot_name(slot))),
    ensures
        ({
            let after = registry::apply_all(r, sysfx::change_ops(sysfx::restore_plan(r, list)));
            let name = types::slot_name(slot);
            &&& registry::has_key(after, Hkey::LocalMachine, fx_path)
            &&& registry::value_at(after, Hkey::LocalMachine, fx_path, name) == (
            match kept_effect(list, fx_path, slot) {
                Some(t) if sysfx::held(r, fx_path, name) is None => Some(ValueView::Sz(t)),
                _ => registry::value_at(r, Hkey::LocalMachine, fx_path, name),
            })
        }),
    decreases list.len(),
{
    if list.len() > 0 {
        let t = list.drop_last();
        let b = list.last();
        let before = sysfx::restore_plan(r, t);
        let s = sysfx::restore_value(
            b.key_path,
            sysfx::PKEY_FX_STREAM_EFFECT_CLSID@,
            sysfx::held(r, b.key_path, sysfx::PKEY_FX_STREAM_EFFECT_CLSID@),
            b.stream,
        );
        let m = sysfx::restore_value(
            b.key_path,
            PKEY_FX_MODE_EFFECT_CLSID@,
            sysfx::held(r, b.key_path, PKEY_FX_MODE_EFFECT_CLSID@),
            b.mode,
        );
        lemma_restored_value(r, t, fx_path, slot);
        lemma_effect_slots(slot);
        assert(sysfx::restore_plan(r, list) =~= before + s + m);
        assert(sysfx::change_ops(before + s + m) =~= sysfx::change_ops(before) + sysfx::change_ops(
            s,
        ) + sysfx::change_ops(m));
        let r1 = registry::apply_all(r, sysfx::change_ops(before));
        let r2 = registry::apply_all(r1, sysfx::change_ops(s));
        registry::lemma_apply_all_concat(
            r,
            sysfx::change_ops(before) + sysfx::change_ops(s),
            sysfx::change_ops(m),
        );
        registry::lemma_apply_all_concat(r, sysfx::change_ops(before), sysfx::change_ops(s));
        lemma_restore_one(
            r,
            r1,
            b.key_path,
            sysfx::PKEY_FX_STREAM_EFFECT_CLSID@,
            b.stream,
            fx_path,
            slot,
        );
        lemma_restore_one(
            r,
            r2,
            b.key_path,
            PKEY_FX_MODE_EFFECT_CLSID@,
            b.mode,
            fx_path,
            slot,
        );
    } else {
        assert(sysfx::change_ops(sysfx::restore_plan(r, list)) =~= Seq::<OpView>::empty());
    }
}

/// The text of a GUID is one of this library's own where the GUID is.
proof fn lemma_own_text(s: Seq<char>)
    requires
        sysfx::own(Some(s)),
    ensures
        read::slot_value_of(Some(ValueView::Sz(s))) matches SlotValue::Guid(g)
            && vx_reg_props::is_own_clsid(g),
{
    let g = if text::eq_ci(s, guid::guid_text(clsid_pre_mix())) {
        clsid_pre_mix()
    } else {
        clsid_post_mix()
    };
    guid::law_guid_text_in_any_case(s, g);
    text::lemma_trim_noop(s);
    lemma_own_not_zero();
}

/// No slot holds one of this library's objects once they are out of their slots.
proof fn lemma_handed_over_not_own(
    r: Seq<KeyView>,
    device_guid: Seq<char>,
    fx_path: Seq<char>,
    slot: ApoSlot,
)
    ensures
        ({
            let v = handed_over_value(r, device_guid, fx_path, slot);
            &&& !(read::slot_value_of(v) matches SlotValue::Guid(g) && vx_reg_props::is_own_clsid(
                g,
            ))
            &&& !sysfx::own(registry::as_sz(v))
        }),
{
    let v = handed_over_value(r, device_guid, fx_path, slot);
    if execute::holds_own(r, fx_path, slot) {
        match helpers::backup_of(r, device_guid, slot) {
            Some(g) => {
                let t = guid::guid_text(g);
                guid::law_guid_text_round_trip(g);
                assert(!text::is_ws(t[0]) && !text::is_ws(t[t.len() - 1]));
                text::lemma_trim_noop(t);
                assert(!vx_reg_props::is_own_clsid(g));
            },
            None => {},
        }
    }
    match registry::as_sz(v) {
        Some(s) => {
            if sysfx::own(Some(s)) {
                lemma_own_text(s);
            }
        },
        None => {},
    }
}

/// Giving default effects concerns no effect property of the endpoint.
proof fn lemma_defaults_spare(
    r: Seq<KeyView>,
    device_guid: Seq<char>,
    endpoint_path: Seq<char>,
    slot: ApoSlot,
)
    requires
        is_endpoint(endpoint_path, device_guid),
    ensures
        registry::untouched(
            sysfx::change_ops(
                sysfx::defaults_plan(r, capx::endpoint_templates(r, endpoint_path)),
            ),
            Hkey::LocalMachine,
            execute::fx_of(endpoint_path),
            types::slot_name(slot),
        ),
{
    let fx = execute::fx_of(endpoint_path);
    let list = sysfx::defaults_plan(r, capx::endpoint_templates(r, endpoint_path));
    let ops = sysfx::change_ops(list);
    let name = types::slot_name(slot);
    let props = registry::join(endpoint_path, crate::install::device::identity::PROPERTIES_KEY@);
    sysfx::lemma_entries_present(
        r,
        sysfx::held(r, props, sysfx::PKEY_DEVICE_INSTANCE_ID@),
        sysfx::held(r, props, sysfx::PKEY_AUDIO_ENDPOINT_ASSOCIATION@),
    );
    lemma_default_places(r, capx::endpoint_templates(r, endpoint_path));
    assert forall|i: int| 0 <= i < ops.len() implies !registry::touches(
        #[trigger] ops[i],
        Hkey::LocalMachine,
        fx,
        name,
    ) by {
        assert(ops[i] == sysfx::change_op(list[i]));
        lemma_fx_apart(endpoint_path, device_guid, list[i].key_path, device_guid);
    }
}

/// Deleting the record and the properties of an installation concerns no slot.
proof fn lemma_tidy_spares(device_guid: Seq<char>, endpoint_path: Seq<char>, slot: ApoSlot)
    requires
        is_endpoint(endpoint_path, device_guid),
    ensures
        registry::untouched(
            seq![execute::forget_op(device_guid)] + execute::tidy_ops(
                execute::fx_of(endpoint_path),
            ),
            Hkey::LocalMachine,
            execute::fx_of(endpoint_path),
            types::slot_name(slot),
        ),
{
    let h = Hkey::LocalMachine;
    let fx = execute::fx_of(endpoint_path);
    let name = types::slot_name(slot);
    let k = seq![execute::forget_op(device_guid)];
    let t = execute::tidy_ops(fx);
    assert(DEVICE_CLASSES_ROOT@.is_prefix_of(DEVICE_CLASSES_ROOT@)) by {
        assert(DEVICE_CLASSES_ROOT@.subrange(0, DEVICE_CLASSES_ROOT@.len() as int)
            =~= DEVICE_CLASSES_ROOT@);
    }
    lemma_fx_apart(endpoint_path, device_guid, DEVICE_CLASSES_ROOT@, device_guid);
    assert(registry::untouched(k, h, fx, name));
    lemma_slot_apart(slot, 0);
    reveal_strlit("{d04e05a6-594b-4fb6-a80d-01af5eed7d1d},");
    reveal_strlit("childGuid");
    reveal_strlit("allowSilentBuffer");
    reveal_strlit("autoAdjust");
    lemma_differ(execute::CHILD_GUID_VALUE@, name, 0);
    lemma_differ(helpers::ALLOW_SILENT_BUFFER_VALUE@, name, 0);
    lemma_differ(helpers::AUTO_ADJUST_VALUE@, name, 0);
    assert(registry::untouched(t, h, fx, name));
    registry::lemma_untouched_concat(k, t, h, fx, name);
}

/// What a slot holds once an installation is removed: the object of others that
/// this library's displaced, or what it held where it held none of this library's;
/// where that is no text, the effect that the record keeps of it, if any.
pub open spec fn value_after_uninstall(
    r: Seq<KeyView>,
    device_guid: Seq<char>,
    endpoint_path: Seq<char>,
    slot: ApoSlot,
) -> Option<ValueView> {
    let fx = execute::fx_of(endpoint_path);
    let v = handed_over_value(r, device_guid, fx, slot);
    match kept_effect(capx::kept_effects(r, device_guid), fx, slot) {
        Some(t) if registry::as_sz(v) is None => Some(ValueView::Sz(t)),
        _ => v,
    }
}

/// Each slot holds what is said of it once an installation is removed.
pub proof fn law_uninstall_slots(
    r: Seq<KeyView>,
    device_guid: Seq<char>,
    endpoint_path: Seq<char>,
    slot: ApoSlot,
)
    requires
        info::endpoint_path(r, device_guid) == Some(endpoint_path),
        registry::has_key(r, Hkey::LocalMachine, execute::fx_of(endpoint_path)),
    ensures
        registry::value_at(
            registry::apply_all(r, execute::uninstall_ops(r, device_guid, endpoint_path)),
            Hkey::LocalMachine,
            execute::fx_of(endpoint_path),
            types::slot_name(slot),
        ) == value_after_uninstall(r, device_guid, endpoint_path, slot),
{
    let h = Hkey::LocalMachine;
    let fx = execute::fx_of(endpoint_path);
    let name = types::slot_name(slot);
    let o = execute::hand_over_ops(r, device_guid, endpoint_path);
    let r1 = execute::handed_over(r, device_guid, endpoint_path);
    let g = sysfx::change_ops(capx::give_back_changes(r1, device_guid, endpoint_path));
    let rest = seq![execute::forget_op(device_guid)] + execute::tidy_ops(fx);
    let kept = capx::kept_effects(r, device_guid);
    lemma_handed_over(r, device_guid, endpoint_path, slot);
    lemma_handed_over_not_own(r, device_guid, fx, slot);
    lemma_tidy_spares(device_guid, endpoint_path, slot);
    assert(execute::uninstall_ops(r, device_guid, endpoint_path) =~= o + (g + rest));
    registry::lemma_apply_all_concat(r, o, g + rest);
    registry::lemma_apply_all_concat(r1, g, rest);
    registry::law_untouched_value_stays(registry::apply_all(r1, g), rest, h, fx, name);
    if kept.len() > 0 {
        lemma_restored_value(r1, kept, fx, slot);
    } else {
        lemma_defaults_spare(r1, device_guid, endpoint_path, slot);
        registry::law_untouched_value_stays(r1, g, h, fx, name);
    }
}

/// Removing an installation leaves every slot as it was that holds an object of
/// others; and where a slot holds neither such an object nor one of this library's,
/// it changes only where the record keeps an effect of it.
pub proof fn law_uninstall_spares_others(
    r: Seq<KeyView>,
    device_guid: Seq<char>,
    endpoint_path: Seq<char>,
    slot: ApoSlot,
)
    requires
        info::endpoint_path(r, device_guid) == Some(endpoint_path),
        registry::has_key(r, Hkey::LocalMachine, execute::fx_of(endpoint_path)),
        !execute::holds_own(r, execute::fx_of(endpoint_path), slot),
        sysfx::held(r, execute::fx_of(endpoint_path), types::slot_name(slot)) is Some
            || kept_effect(
            capx::kept_effects(r, device_guid),
            execute::fx_of(endpoint_path),
            slot,
        ) is None,
    ensures
        ({
            let fx = execute::fx_of(endpoint_path);
            let after = registry::apply_all(
                r,
                execute::uninstall_ops(r, device_guid, endpoint_path),
            );
            registry::value_at(after, Hkey::LocalMachine, fx, types::slot_name(slot))
                == registry::value_at(r, Hkey::LocalMachine, fx, types::slot_name(slot))
        }),
{
    law_uninstall_slots(r, device_guid, endpoint_path, slot);
}

/// Removing an installation puts the object of others that the record has of a slot
/// back into it, where one of this library's objects was in its place.
pub proof fn law_uninstall_puts_back(
    r: Seq<KeyView>,
    device_guid: Seq<char>,
    endpoint_path: Seq<char>,
    slot: ApoSlot,
)
    requires
        info::endpoint_path(r, device_guid) == Some(endpoint_path),
        execute::holds_own(r, execute::fx_of(endpoint_path), slot),
        helpers::backup_of(r, device_guid, slot) is Some,
    ensures
        helpers::slot_at(
            registry::apply_all(r, execute::uninstall_ops(r, device_guid, endpoint_path)),
            execute::fx_of(endpoint_path),
            slot,
        ) == SlotValue::Guid(helpers::backup_of(r, device_guid, slot).unwrap()),
{
    let fx = execute::fx_of(endpoint_path);
    let g = helpers::backup_of(r, device_guid, slot).unwrap();
    assert(registry::has_key(r, Hkey::LocalMachine, fx));
    law_uninstall_slots(r, device_guid, endpoint_path, slot);
    lemma_slot_holds(
        registry::apply_all(r, execute::uninstall_ops(r, device_guid, endpoint_path)),
        fx,
        slot,
        g,
    );
}

/// After an installation is removed no slot holds one of this library's objects,
/// unless the record keeps one as an effect of the endpoint.
pub proof fn law_uninstall_leaves_no_object(
    r: Seq<KeyView>,
    device_guid: Seq<char>,
    endpoint_path: Seq<char>,
    slot: ApoSlot,
)
    requires
        info::endpoint_path(r, device_guid) == Some(endpoint_path),
        registry::has_key(r, Hkey::LocalMachine, execute::fx_of(endpoint_path)),
        kept_effect(
            capx::kept_effects(r, device_guid),
            execute::fx_of(endpoint_path),
            slot,
        ) matches Some(t) ==> !(read::slot_value_of(Some(ValueView::Sz(t))) matches SlotValue::Guid(
            g,
        ) && vx_reg_props::is_own_clsid(g)),
    ensures
        !execute::holds_own(
            registry::apply_all(r, execute::uninstall_ops(r, device_guid, endpoint_path)),
            execute::fx_of(endpoint_path),
            slot,
        ),
{
    law_uninstall_slots(r, device_guid, endpoint_path, slot);
    lemma_handed_over_not_own(r, device_guid, execute::fx_of(endpoint_path), slot);
}

/// After an installation is removed, its record is gone, and the effect
/// properties hold no version.
pub proof fn law_uninstall_is_complete(
    r: Seq<KeyView>,
    device_guid: Seq<char>,
    endpoint_path: Seq<char>,
)
    requires
        info::endpoint_path(r, device_guid) == Some(endpoint_path),
    ensures
        ({
            let after = registry::apply_all(
                r,
                execute::uninstall_ops(r, device_guid, endpoint_path),
            );
            &&& !registry::has_key(after, Hkey::LocalMachine, child::record_path(device_guid))
            &&& registry::value_at(
                after,
                Hkey::LocalMachine,
                execute::fx_of(endpoint_path),
                VERSION_VALUE@,
            ) is None
        }),
{
    let h = Hkey::LocalMachine;
    let fx = execute::fx_of(endpoint_path);
    let p = child::record_path(device_guid);
    let v = execute::hand_over_ops(r, device_guid, endpoint_path);
    let r1 = execute::handed_over(r, device_guid, endpoint_path);
    let g = sysfx::change_ops(capx::give_back_changes(r1, device_guid, endpoint_path));
    let k = seq![execute::forget_op(device_guid)];
    let t = execute::tidy_ops(fx);
    let r2 = registry::apply_all(r, v + g);
    let r3 = registry::apply_all(r2, k);
    registry::lemma_apply_all_concat(r, v + g, k);
    registry::lemma_apply_all_concat(r, v + g + k, t);
    lemma_apply_one(r2, execute::forget_op(device_guid));
    registry::law_deleted_tree_is_gone(r2, h, p, h, p);
    assert(text::eq_ci(p, p));
    sysfx::lemma_value_ops_keep_keys(r3, t, h, p);
    let head = seq![t[0], t[1], t[2]];
    assert(t =~= head + seq![t[3]] + seq![t[4]]);
    registry::lemma_apply_all_concat(r3, head, seq![t[3]]);
    registry::lemma_apply_all_concat(r3, head + seq![t[3]], seq![t[4]]);
    let r4 = registry::apply_all(r3, head);
    let r5 = registry::apply(r4, t[3]);
    lemma_apply_one(r4, t[3]);
    lemma_apply_one(r5, t[4]);
    registry::law_deleted_value_is_gone(r4, h, fx, VERSION_VALUE@, h, fx, VERSION_VALUE@);
    registry::law_deleted_value_is_gone(
        r5,
        h,
        fx,
        DISABLE_ENHANCEMENTS_VALUE@,
        h,
        fx,
        VERSION_VALUE@,
    );
}

// ---------------------------------------------------------------------------
// Installing, and removing the installation
// ---------------------------------------------------------------------------
/// What writing a class identifier leaves of a value.
proof fn lemma_guid_written(
    r: Seq<KeyView>,
    path: Seq<char>,
    name: Seq<char>,
    g: Option<GUID>,
    other: Seq<char>,
)
    requires
        registry::has_key(r, Hkey::LocalMachine, path),
    ensures
        ({
            let after = registry::apply_all(r, helpers::set_guid(path, name, g));
            &&& registry::has_key(after, Hkey::LocalMachine, path)
            &&& registry::value_at(after, Hkey::LocalMachine, path, other) == (match g {
                Some(g) if text::eq_ci(name, other) => Some(ValueView::Sz(guid::guid_text(g))),
                _ => registry::value_at(r, Hkey::LocalMachine, path, other),
            })
        }),
{
    match g {
        Some(g) => lemma_text_written(r, path, name, guid::guid_text(g), other),
        None => {},
    }
}

/// What writing a text leaves of a value.
proof fn lemma_text_written(
    r: Seq<KeyView>,
    path: Seq<char>,
    name: Seq<char>,
    value: Seq<char>,
    other: Seq<char>,
)
    requires
        registry::has_key(r, Hkey::LocalMachine, path),
    ensures
        ({
            let after = registry::apply_all(r, seq![helpers::set_sz(path, name, value)]);
            &&& registry::has_key(after, Hkey::LocalMachine, path)
            &&& registry::value_at(after, Hkey::LocalMachine, path, other) == (if text::eq_ci(
                name,
                other,
            ) {
                Some(ValueView::Sz(value))
            } else {
                registry::value_at(r, Hkey::LocalMachine, path, other)
            })
        }),
{
    let op = helpers::set_sz(path, name, value);
    lemma_apply_one(r, op);
    registry::law_value_changes_keep_keys(r, op, Hkey::LocalMachine, path);
    registry::law_read_after_write(
        r,
        Hkey::LocalMachine,
        path,
        name,
        ValueView::Sz(value),
        Hkey::LocalMachine,
        path,
        other,
    );
    assert(text::eq_ci(path, path));
}

/// The names under which a record has the slots and what they held are different
/// names.
proof fn lemma_record_names_differ()
    ensures
        !text::eq_ci(helpers::BACKUP_PREMIX_SLOT@, helpers::BACKUP_POSTMIX_SLOT@),
        !text::eq_ci(helpers::BACKUP_POSTMIX_SLOT@, helpers::BACKUP_PREMIX_SLOT@),
        !text::eq_ci(helpers::BACKUP_PREMIX_SLOT_VALUE@, helpers::BACKUP_PREMIX_SLOT@),
        !text::eq_ci(helpers::BACKUP_PREMIX_SLOT_VALUE@, helpers::BACKUP_POSTMIX_SLOT@),
        !text::eq_ci(helpers::BACKUP_POSTMIX_SLOT_VALUE@, helpers::BACKUP_PREMIX_SLOT@),
        !text::eq_ci(helpers::BACKUP_POSTMIX_SLOT_VALUE@, helpers::BACKUP_POSTMIX_SLOT@),
        !text::eq_ci(helpers::BACKUP_POSTMIX_SLOT_VALUE@, helpers::BACKUP_PREMIX_SLOT_VALUE@),
        helpers::BACKUP_PREMIX_SLOT@.len() > 0 && helpers::BACKUP_PREMIX_SLOT@[0] == 'P',
        helpers::BACKUP_POSTMIX_SLOT@.len() > 0 && helpers::BACKUP_POSTMIX_SLOT@[0] == 'P',
        helpers::BACKUP_PREMIX_SLOT_VALUE@.len() > 0 && helpers::BACKUP_PREMIX_SLOT_VALUE@[0]
            == 'P',
        helpers::BACKUP_POSTMIX_SLOT_VALUE@.len() > 0 && helpers::BACKUP_POSTMIX_SLOT_VALUE@[0]
            == 'P',
{
    reveal_strlit("PreMixSlot");
    reveal_strlit("PostMixSlot");
    reveal_strlit("PreMixSlotValue");
    reveal_strlit("PostMixSlotValue");
    let pre = helpers::BACKUP_PREMIX_SLOT@;
    let post = helpers::BACKUP_POSTMIX_SLOT@;
    let pre_value = helpers::BACKUP_PREMIX_SLOT_VALUE@;
    let post_value = helpers::BACKUP_POSTMIX_SLOT_VALUE@;
    lemma_differ(pre, post, 1);
    lemma_differ(post, pre, 1);
    lemma_differ(pre_value, post, 1);
    lemma_differ(post_value, pre, 1);
    lemma_differ(post_value, pre_value, 1);
    assert(text::ascii_lower(pre_value).len() != text::ascii_lower(pre).len());
    assert(text::ascii_lower(post_value).len() != text::ascii_lower(post).len());
}

/// The record has the slots of the mode, and the objects of others that they held.
proof fn lemma_slots_recorded(
    before: Seq<KeyView>,
    r: Seq<KeyView>,
    p: Seq<char>,
    fx_path: Seq<char>,
    mode: InstallMode,
    premix: Option<GUID>,
    postmix: Option<GUID>,
)
    requires
        registry::has_key(before, Hkey::LocalMachine, p),
    ensures
        ({
            let h = Hkey::LocalMachine;
            let pre = types::premix_of(mode);
            let post = types::postmix_of(mode);
            let after = registry::apply_all(
                before,
                helpers::slot_record_ops(r, p, fx_path, mode, premix, postmix),
            );
            &&& registry::value_at(after, h, p, helpers::BACKUP_PREMIX_SLOT@) == Some(
                ValueView::Sz(types::slot_name(pre)),
            )
            &&& registry::value_at(after, h, p, helpers::BACKUP_POSTMIX_SLOT@) == Some(
                ValueView::Sz(types::slot_name(post)),
            )
            &&& helpers::kept_child(true, helpers::slot_at(r, fx_path, pre)) matches Some(g)
                ==> registry::value_at(after, h, p, helpers::BACKUP_PREMIX_SLOT_VALUE@) == Some(
                ValueView::Sz(guid::guid_text(g)),
            )
            &&& helpers::kept_child(true, helpers::slot_at(r, fx_path, post)) matches Some(g)
                ==> registry::value_at(after, h, p, helpers::BACKUP_POSTMIX_SLOT_VALUE@) == Some(
                ValueView::Sz(guid::guid_text(g)),
            )
        }),
{
    let pre = types::premix_of(mode);
    let post = types::postmix_of(mode);
    let pre_value = helpers::kept_child(true, helpers::slot_at(r, fx_path, pre));
    let post_value = helpers::kept_child(true, helpers::slot_at(r, fx_path, post));
    let n1 = helpers::BACKUP_PREMIX_SLOT@;
    let n2 = helpers::BACKUP_POSTMIX_SLOT@;
    let n3 = helpers::BACKUP_PREMIX_SLOT_VALUE@;
    let n4 = helpers::BACKUP_POSTMIX_SLOT_VALUE@;
    let c1 = helpers::set_guid(p, child::child_value_name(child::ChildApoKind::PreMix), premix);
    let c2 = helpers::set_guid(p, child::child_value_name(child::ChildApoKind::PostMix), postmix);
    let s1 = seq![helpers::set_sz(p, n1, types::slot_name(pre))];
    let s2 = seq![helpers::set_sz(p, n2, types::slot_name(post))];
    let v1 = helpers::set_guid(p, n3, pre_value);
    let v2 = helpers::set_guid(p, n4, post_value);
    let r1 = registry::apply_all(before, c1);
    let r2 = registry::apply_all(r1, c2);
    let r3 = registry::apply_all(r2, s1);
    let r4 = registry::apply_all(r3, s2);
    let r5 = registry::apply_all(r4, v1);
    assert(helpers::slot_record_ops(r, p, fx_path, mode, premix, postmix) =~= c1 + (c2 + (s1 + (s2 + (
    v1 + v2)))));
    registry::lemma_apply_all_concat(before, c1, c2 + (s1 + (s2 + (v1 + v2))));
    registry::lemma_apply_all_concat(r1, c2, s1 + (s2 + (v1 + v2)));
    registry::lemma_apply_all_concat(r2, s1, s2 + (v1 + v2));
    registry::lemma_apply_all_concat(r3, s2, v1 + v2);
    registry::lemma_apply_all_concat(r4, v1, v2);
    lemma_record_names_differ();
    lemma_guid_written(before, p, child::child_value_name(child::ChildApoKind::PreMix), premix, n1);
    lemma_guid_written(r1, p, child::child_value_name(child::ChildApoKind::PostMix), postmix, n1);
    lemma_text_written(r2, p, n1, types::slot_name(pre), n1);
    lemma_text_written(r3, p, n2, types::slot_name(post), n1);
    lemma_text_written(r3, p, n2, types::slot_name(post), n2);
    lemma_guid_written(r4, p, n3, pre_value, n1);
    lemma_guid_written(r4, p, n3, pre_value, n2);
    lemma_guid_written(r4, p, n3, pre_value, n3);
    lemma_guid_written(r5, p, n4, post_value, n1);
    lemma_guid_written(r5, p, n4, post_value, n2);
    lemma_guid_written(r5, p, n4, post_value, n3);
    lemma_guid_written(r5, p, n4, post_value, n4);
}

/// Changes of the values of one key concern none of another.
proof fn lemma_only_at_spares(
    ops: Seq<OpView>,
    path: Seq<char>,
    other: Seq<char>,
    name: Seq<char>,
)
    requires
        only_at(ops, path),
        !text::eq_ci(path, other),
    ensures
        registry::untouched(ops, Hkey::LocalMachine, other, name),
{
}

proof fn lemma_clear_places(fx_path: Seq<char>, mode: InstallMode, slots: Seq<ApoSlot>)
    ensures
        only_at(helpers::clear_ops(fx_path, mode, slots), fx_path),
    decreases slots.len(),
{
    if slots.len() > 0 {
        lemma_clear_places(fx_path, mode, slots.drop_last());
    }
}

proof fn lemma_only_at_concat(a: Seq<OpView>, b: Seq<OpView>, path: Seq<char>)
    requires
        only_at(a, path),
        only_at(b, path),
    ensures
        only_at(a + b, path),
{
    let c = a + b;
    assert forall|i: int| 0 <= i < c.len() implies match #[trigger] c[i] {
        OpView::SetValue { root, path: p, .. } => root == Hkey::LocalMachine && p == path,
        OpView::DeleteValue { root, path: p, .. } => root == Hkey::LocalMachine && p == path,
        _ => false,
    } by {
        if i < a.len() {
            assert(c[i] == a[i]);
        } else {
            assert(c[i] == b[i - a.len()]);
        }
    }
}

/// The objects are put into their slots by changes of the effect properties.
proof fn lemma_object_places(endpoint_path: Seq<char>, config: InstallConfig)
    ensures
        only_at(execute::object_ops(endpoint_path, config), execute::fx_of(endpoint_path)),
{
    let fx = execute::fx_of(endpoint_path);
    let mode = config.install_mode;
    let post = execute::uses_postmix(endpoint_path, config);
    let a = helpers::clear_ops(fx, mode, types::all_slots());
    let b = identity::op_if(
        config.install_premix,
        helpers::set_sz(
            fx,
            types::slot_name(types::premix_of(mode)),
            guid::guid_text(clsid_pre_mix()),
        ),
    );
    let c = identity::op_if(
        post,
        helpers::set_sz(
            fx,
            types::slot_name(types::postmix_of(mode)),
            guid::guid_text(clsid_post_mix()),
        ),
    );
    let d = helpers::processing_ops(fx, mode, config.install_premix, post);
    lemma_clear_places(fx, mode, types::all_slots());
    assert(only_at(d, fx));
    lemma_only_at_concat(a, b, fx);
    lemma_only_at_concat(a + b, c, fx);
    lemma_only_at_concat(a + b + c, d, fx);
    lemma_only_at_concat(a + b + c + d, sysfx::enable_ops(fx), fx);
}

/// A takeover concerns none of the values that a record has of the slots.
proof fn lemma_takeover_spares_record(
    r: Seq<KeyView>,
    device_guid: Seq<char>,
    endpoint_path: Seq<char>,
    config: InstallConfig,
    name: Seq<char>,
)
    requires
        is_endpoint(endpoint_path, device_guid),
        name.len() > 0,
        name[0] == 'P',
    ensures
        registry::untouched(
            capx::takeover_ops(r, device_guid, endpoint_path, config),
            Hkey::LocalMachine,
            child::record_path(device_guid),
            name,
        ),
{
    let fx = execute::fx_of(endpoint_path);
    let rec = child::record_path(device_guid);
    let paths = capx::endpoint_templates(r, endpoint_path);
    let props = registry::join(
        endpoint_path,
        crate::install::device::identity::PROPERTIES_KEY@,
    );
    sysfx::lemma_entries_present(
        r,
        sysfx::held(r, props, sysfx::PKEY_DEVICE_INSTANCE_ID@),
        sysfx::held(r, props, sysfx::PKEY_AUDIO_ENDPOINT_ASSOCIATION@),
    );
    lemma_plan_places(
        r,
        paths,
        config.install_mode,
        config.install_premix,
        config.install_postmix,
    );
    let plan = sysfx::takeover_plan(
        r,
        paths,
        config.install_mode,
        config.install_premix,
        config.install_postmix,
    );
    let list = capx::takeover_changes(r, endpoint_path, config);
    let ops = sysfx::change_ops(list);
    assert(DEVICE_CLASSES_ROOT@.is_prefix_of(DEVICE_CLASSES_ROOT@)) by {
        assert(DEVICE_CLASSES_ROOT@.subrange(0, DEVICE_CLASSES_ROOT@.len() as int)
            =~= DEVICE_CLASSES_ROOT@);
    }
    lemma_fx_apart(endpoint_path, device_guid, DEVICE_CLASSES_ROOT@, device_guid);
    assert forall|i: int| 0 <= i < ops.len() implies !registry::touches(
        #[trigger] ops[i],
        Hkey::LocalMachine,
        rec,
        name,
    ) by {
        assert(ops[i] == sysfx::change_op(list[i]));
        if i < plan.len() {
            assert(list[i] == plan[i]);
            lemma_fx_apart(endpoint_path, device_guid, plan[i].key_path, device_guid);
        }
    }
    let kept = identity::op_if(
        list.len() > 0,
        identity::op_set_multi(rec, sysfx::SYSFX_BACKUP_VALUE@, capx::kept_lines(list)),
    );
    reveal_strlit("SysFxBackups");
    lemma_differ(sysfx::SYSFX_BACKUP_VALUE@, name, 0);
    assert(registry::untouched(kept, Hkey::LocalMachine, rec, name));
    registry::lemma_untouched_concat(ops, kept, Hkey::LocalMachine, rec, name);
}

/// Writing an identity concerns none of the values that a record has of the slots.
proof fn lemma_identity_spares(
    p: Seq<char>,
    id: identity::IdentityView,
    history: Seq<Seq<char>>,
    name: Seq<char>,
)
    requires
        name.len() > 0,
        name[0] == 'P',
    ensures
        registry::untouched(
            identity::identity_ops(p, id, history),
            Hkey::LocalMachine,
            p,
            name,
        ),
{
    reveal_strlit("DeviceInstanceId");
    reveal_strlit("DeviceHardwareIds");
    reveal_strlit("DeviceProductName");
    reveal_strlit("EndpointHistory");
    lemma_differ(identity::VALUE_DEVICE_INSTANCE_ID@, name, 0);
    lemma_differ(identity::VALUE_DEVICE_HARDWARE_IDS@, name, 0);
    lemma_differ(identity::VALUE_DEVICE_PRODUCT_NAME@, name, 0);
    lemma_differ(identity::VALUE_ENDPOINT_HISTORY@, name, 0);
}

/// What follows the record's slots in an installation concerns none of the values
/// that the record has of them.
proof fn lemma_rest_spares_record(
    r: Seq<KeyView>,
    device_guid: Seq<char>,
    endpoint_path: Seq<char>,
    config: InstallConfig,
    id: identity::IdentityView,
    history: Seq<Seq<char>>,
    name: Seq<char>,
)
    requires
        is_endpoint(endpoint_path, device_guid),
        name.len() > 0,
        name[0] == 'P',
    ensures
        registry::untouched(
            identity::identity_ops(child::record_path(device_guid), id, history)
                + helpers::switch_ops(execute::fx_of(endpoint_path), config)
                + execute::object_ops(endpoint_path, config) + capx::takeover_ops(
                r,
                device_guid,
                endpoint_path,
                config,
            ),
            Hkey::LocalMachine,
            child::record_path(device_guid),
            name,
        ),
{
    let h = Hkey::LocalMachine;
    let fx = execute::fx_of(endpoint_path);
    let p = child::record_path(device_guid);
    let a = identity::identity_ops(p, id, history);
    let b = helpers::switch_ops(fx, config);
    let c = execute::object_ops(endpoint_path, config);
    assert(DEVICE_CLASSES_ROOT@.is_prefix_of(DEVICE_CLASSES_ROOT@)) by {
        assert(DEVICE_CLASSES_ROOT@.subrange(0, DEVICE_CLASSES_ROOT@.len() as int)
            =~= DEVICE_CLASSES_ROOT@);
    }
    lemma_fx_apart(endpoint_path, device_guid, DEVICE_CLASSES_ROOT@, device_guid);
    lemma_identity_spares(p, id, history, name);
    assert(only_at(b, fx));
    lemma_only_at_spares(b, fx, p, name);
    lemma_object_places(endpoint_path, config);
    lemma_only_at_spares(c, fx, p, name);
    lemma_takeover_spares_record(r, device_guid, endpoint_path, config, name);
    registry::lemma_untouched_concat(a, b, h, p, name);
    registry::lemma_untouched_concat(a + b, c, h, p, name);
    registry::lemma_untouched_concat(
        a + b + c,
        capx::takeover_ops(r, device_guid, endpoint_path, config),
        h,
        p,
        name,
    );
}

proof fn lemma_regroup_record(
    f: Seq<OpView>,
    k: Seq<OpView>,
    s: Seq<OpView>,
    a: Seq<OpView>,
    b: Seq<OpView>,
    c: Seq<OpView>,
    t: Seq<OpView>,
)
    requires
        f.len() == 0,
    ensures
        f + (k + s + a + b + c) + t == k + (s + (a + b + c + t)),
{
    assert(f + (k + s + a + b + c) + t =~= k + (s + (a + b + c + t)));
}

/// What follows the record's slots in an installation.
spec fn after_slots(
    r: Seq<KeyView>,
    device_guid: Seq<char>,
    endpoint_path: Seq<char>,
    config: InstallConfig,
) -> Seq<OpView> {
    let id = identity::live_identity(r, endpoint_path);
    identity::identity_ops(
        child::record_path(device_guid),
        id,
        helpers::record_history(r, device_guid, id),
    ) + helpers::switch_ops(execute::fx_of(endpoint_path), config) + execute::object_ops(
        endpoint_path,
        config,
    ) + capx::takeover_ops(
        execute::with_entries(r, device_guid, endpoint_path, config),
        device_guid,
        endpoint_path,
        config,
    )
}

/// The changes of an installation, told apart around those that write the slots
/// into the record.
proof fn lemma_install_around_slots(
    r: Seq<KeyView>,
    device_guid: Seq<char>,
    endpoint_path: Seq<char>,
    config: InstallConfig,
) -> (children: (Option<GUID>, Option<GUID>))
    requires
        registry::has_key(r, Hkey::LocalMachine, execute::fx_of(endpoint_path)),
    ensures
        ({
            let p = child::record_path(device_guid);
            execute::install_ops(r, device_guid, endpoint_path, config) == seq![
                OpView::CreateKey { root: Hkey::LocalMachine, path: p },
            ] + (helpers::slot_record_ops(
                r,
                p,
                execute::fx_of(endpoint_path),
                config.install_mode,
                children.0,
                children.1,
            ) + after_slots(r, device_guid, endpoint_path, config))
        }),
{
    let fx = execute::fx_of(endpoint_path);
    let p = child::record_path(device_guid);
    let mode = config.install_mode;
    lemma_fx_there(r, endpoint_path);
    let premix = helpers::kept_child(
        config.use_original_apo_premix,
        helpers::slot_at(r, fx, types::premix_of(mode)),
    );
    let postmix = if execute::records(endpoint_path) {
        None
    } else {
        helpers::kept_child(
            config.use_original_apo_postmix,
            helpers::slot_at(r, fx, types::postmix_of(mode)),
        )
    };
    let id = identity::live_identity(r, endpoint_path);
    lemma_regroup_record(
        helpers::fx_ops(r, fx),
        seq![OpView::CreateKey { root: Hkey::LocalMachine, path: p }],
        helpers::slot_record_ops(r, p, fx, mode, premix, postmix),
        identity::identity_ops(p, id, helpers::record_history(r, device_guid, id)),
        helpers::switch_ops(fx, config),
        execute::object_ops(endpoint_path, config),
        capx::takeover_ops(
            execute::with_entries(r, device_guid, endpoint_path, config),
            device_guid,
            endpoint_path,
            config,
        ),
    );
    (premix, postmix)
}

/// After an installation the record has the values that were written of the slots.
proof fn lemma_record_keeps_slots(
    r: Seq<KeyView>,
    device_guid: Seq<char>,
    endpoint_path: Seq<char>,
    config: InstallConfig,
    children: (Option<GUID>, Option<GUID>),
    name: Seq<char>,
)
    requires
        is_endpoint(endpoint_path, device_guid),
        name.len() > 0,
        name[0] == 'P',
        execute::install_ops(r, device_guid, endpoint_path, config) == seq![
            OpView::CreateKey {
                root: Hkey::LocalMachine,
                path: child::record_path(device_guid),
            },
        ] + (helpers::slot_record_ops(
            r,
            child::record_path(device_guid),
            execute::fx_of(endpoint_path),
            config.install_mode,
            children.0,
            children.1,
        ) + after_slots(r, device_guid, endpoint_path, config)),
    ensures
        ({
            let p = child::record_path(device_guid);
            let made = registry::apply(r, OpView::CreateKey { root: Hkey::LocalMachine, path: p });
            registry::value_at(
                registry::apply_all(
                    r,
                    execute::install_ops(r, device_guid, endpoint_path, config),
                ),
                Hkey::LocalMachine,
                p,
                name,
            ) == registry::value_at(
                registry::apply_all(
                    made,
                    helpers::slot_record_ops(
                        r,
                        p,
                        execute::fx_of(endpoint_path),
                        config.install_mode,
                        children.0,
                        children.1,
                    ),
                ),
                Hkey::LocalMachine,
                p,
                name,
            )
        }),
{
    let h = Hkey::LocalMachine;
    let p = child::record_path(device_guid);
    let id = identity::live_identity(r, endpoint_path);
    let op = OpView::CreateKey { root: h, path: p };
    let s = helpers::slot_record_ops(
        r,
        p,
        execute::fx_of(endpoint_path),
        config.install_mode,
        children.0,
        children.1,
    );
    let rest = after_slots(r, device_guid, endpoint_path, config);
    let made = registry::apply(r, op);
    lemma_apply_one(r, op);
    registry::lemma_apply_all_concat(r, seq![op], s + rest);
    registry::lemma_apply_all_concat(made, s, rest);
    lemma_rest_spares_record(
        execute::with_entries(r, device_guid, endpoint_path, config),
        device_guid,
        endpoint_path,
        config,
        id,
        helpers::record_history(r, device_guid, id),
        name,
    );
    registry::law_untouched_value_stays(registry::apply_all(made, s), rest, h, p, name);
}

/// After an installation the record has, of each slot of the mode, the object of
/// others that the slot held.
pub proof fn law_install_keeps_displaced(
    r: Seq<KeyView>,
    device_guid: Seq<char>,
    endpoint_path: Seq<char>,
    config: InstallConfig,
    slot: ApoSlot,
)
    requires
        info::endpoint_path(r, device_guid) == Some(endpoint_path),
        slot == types::premix_of(config.install_mode) || slot == types::postmix_of(
            config.install_mode,
        ),
        helpers::kept_child(
            true,
            helpers::slot_at(r, execute::fx_of(endpoint_path), slot),
        ) is Some,
    ensures
        helpers::backup_of(
            registry::apply_all(
                r,
                execute::install_ops(r, device_guid, endpoint_path, config),
            ),
            device_guid,
            slot,
        ) == helpers::kept_child(
            true,
            helpers::slot_at(r, execute::fx_of(endpoint_path), slot),
        ),
{
    let h = Hkey::LocalMachine;
    let fx = execute::fx_of(endpoint_path);
    let p = child::record_path(device_guid);
    let mode = config.install_mode;
    let pre = types::premix_of(mode);
    let post = types::postmix_of(mode);
    assert(registry::has_key(r, h, fx));
    let c = lemma_install_around_slots(r, device_guid, endpoint_path, config);
    let made = registry::apply(r, OpView::CreateKey { root: h, path: p });
    registry::law_created_key_exists(r, h, p, h, p);
    lemma_slots_recorded(made, r, p, fx, mode, c.0, c.1);
    lemma_record_names_differ();
    let n1 = helpers::BACKUP_PREMIX_SLOT@;
    let n2 = helpers::BACKUP_POSTMIX_SLOT@;
    let n3 = helpers::BACKUP_PREMIX_SLOT_VALUE@;
    let n4 = helpers::BACKUP_POSTMIX_SLOT_VALUE@;
    lemma_record_keeps_slots(r, device_guid, endpoint_path, config, c, n1);
    lemma_record_keeps_slots(r, device_guid, endpoint_path, config, c, n2);
    lemma_record_keeps_slots(r, device_guid, endpoint_path, config, c, n3);
    lemma_record_keeps_slots(r, device_guid, endpoint_path, config, c, n4);
    types::law_mode_slots(mode);
    types::law_slot_names_distinct(pre, post);
    types::law_slot_names_distinct(post, pre);
    assert(text::eq_ci(types::slot_name(slot), types::slot_name(slot)));
    lemma_text_holds(helpers::kept_child(true, helpers::slot_at(r, fx, slot)).unwrap());
}

/// Installing and then removing the installation leaves in each slot that was used
/// the object of others that it held before.
pub proof fn law_uninstall_undoes_install(
    r: Seq<KeyView>,
    device_guid: Seq<char>,
    endpoint_path: Seq<char>,
    config: InstallConfig,
    slot: ApoSlot,
    g: GUID,
)
    requires
        info::endpoint_path(r, device_guid) == Some(endpoint_path),
        config.install_premix && slot == types::premix_of(config.install_mode)
            || execute::uses_postmix(endpoint_path, config) && slot == types::postmix_of(
            config.install_mode,
        ),
        helpers::slot_at(r, execute::fx_of(endpoint_path), slot) == SlotValue::Guid(g),
        !vx_reg_props::is_own_clsid(g),
    ensures
        ({
            let installed = registry::apply_all(
                r,
                execute::install_ops(r, device_guid, endpoint_path, config),
            );
            helpers::slot_at(
                registry::apply_all(
                    installed,
                    execute::uninstall_ops(installed, device_guid, endpoint_path),
                ),
                execute::fx_of(endpoint_path),
                slot,
            ) == SlotValue::Guid(g)
        }),
{
    let installed = registry::apply_all(
        r,
        execute::install_ops(r, device_guid, endpoint_path, config),
    );
    law_install_keeps_displaced(r, device_guid, endpoint_path, config, slot);
    law_install_fills_slots(r, device_guid, endpoint_path, config);
    law_install_is_whole(r, device_guid, endpoint_path, config);
    law_uninstall_puts_back(installed, device_guid, endpoint_path, slot);
}

// ---------------------------------------------------------------------------
// Undoing an installation
// ---------------------------------------------------------------------------
/// The changes after the record's key is made are of values alone.
proof fn lemma_entry_values(
    r: Seq<KeyView>,
    device_guid: Seq<char>,
    endpoint_path: Seq<char>,
    config: InstallConfig,
)
    ensures
        ({
            let ops = execute::entry_ops(r, device_guid, endpoint_path, config);
            &&& ops.len() > 0
            &&& ops[0] == OpView::CreateKey {
                root: Hkey::LocalMachine,
                path: child::record_path(device_guid),
            }
            &&& undo::only_values(ops.skip(1))
        }),
{
    let fx = execute::fx_of(endpoint_path);
    let p = child::record_path(device_guid);
    let mode = config.install_mode;
    let id = identity::live_identity(r, endpoint_path);
    let history = helpers::record_history(r, device_guid, id);
    let premix = helpers::kept_child(
        config.use_original_apo_premix,
        helpers::slot_at(r, fx, types::premix_of(mode)),
    );
    let postmix = if execute::records(endpoint_path) {
        None
    } else {
        helpers::kept_child(
            config.use_original_apo_postmix,
            helpers::slot_at(r, fx, types::postmix_of(mode)),
        )
    };
    let a = helpers::slot_record_ops(r, p, fx, mode, premix, postmix);
    let b = identity::identity_ops(p, id, history);
    let c = helpers::switch_ops(fx, config);
    let d = execute::object_ops(endpoint_path, config);
    lemma_slot_record_values(r, p, fx, mode, premix, postmix);
    lemma_identity_values(p, id, history);
    lemma_object_values(endpoint_path, config);
    undo::lemma_only_values_concat(a, b);
    undo::lemma_only_values_concat(a + b, c);
    undo::lemma_only_values_concat(a + b + c, d);
    let k = seq![OpView::CreateKey { root: Hkey::LocalMachine, path: p }];
    assert(execute::entry_ops(r, device_guid, endpoint_path, config) == k + a + b + c + d);
    lemma_skip_first(k, a, b, c, d);
}

proof fn lemma_skip_first(
    k: Seq<OpView>,
    a: Seq<OpView>,
    b: Seq<OpView>,
    c: Seq<OpView>,
    d: Seq<OpView>,
)
    requires
        k.len() == 1,
    ensures
        (k + a + b + c + d).len() > 0,
        (k + a + b + c + d)[0] == k[0],
        (k + a + b + c + d).skip(1) == a + b + c + d,
{
    assert((k + a + b + c + d).skip(1) =~= a + b + c + d);
}

proof fn lemma_slot_record_values(
    r: Seq<KeyView>,
    p: Seq<char>,
    fx_path: Seq<char>,
    mode: InstallMode,
    premix: Option<GUID>,
    postmix: Option<GUID>,
)
    ensures
        undo::only_values(helpers::slot_record_ops(r, p, fx_path, mode, premix, postmix)),
{
}

proof fn lemma_identity_values(
    p: Seq<char>,
    id: identity::IdentityView,
    history: Seq<Seq<char>>,
)
    ensures
        undo::only_values(identity::identity_ops(p, id, history)),
{
}

proof fn lemma_object_values(endpoint_path: Seq<char>, config: InstallConfig)
    ensures
        undo::only_values(execute::object_ops(endpoint_path, config)),
{
    let fx = execute::fx_of(endpoint_path);
    let mode = config.install_mode;
    let post = execute::uses_postmix(endpoint_path, config);
    let a = helpers::clear_ops(fx, mode, types::all_slots());
    let b = identity::op_if(
        config.install_premix,
        helpers::set_sz(
            fx,
            types::slot_name(types::premix_of(mode)),
            guid::guid_text(clsid_pre_mix()),
        ),
    );
    let c = identity::op_if(
        post,
        helpers::set_sz(
            fx,
            types::slot_name(types::postmix_of(mode)),
            guid::guid_text(clsid_post_mix()),
        ),
    );
    let d = helpers::processing_ops(fx, mode, config.install_premix, post);
    execute::lemma_clear_ops_values(fx, mode, types::all_slots());
    assert(undo::only_values(a));
    assert(undo::only_values(d));
    undo::lemma_only_values_concat(a, b);
    undo::lemma_only_values_concat(a + b, c);
    undo::lemma_only_values_concat(a + b + c, d);
    undo::lemma_only_values_concat(a + b + c + d, sysfx::enable_ops(fx));
}

/// The places at which an installation can make a key do not stand below one
/// another.
proof fn lemma_places_apart(device_guid: Seq<char>, endpoint_path: Seq<char>)
    requires
        is_endpoint(endpoint_path, device_guid),
    ensures
        !registry::is_below(AUDIO_KEY_PATH@, execute::fx_of(endpoint_path)),
        !registry::is_below(AUDIO_KEY_PATH@, child::record_path(device_guid)),
        !registry::is_below(execute::fx_of(endpoint_path), child::record_path(device_guid)),
{
    let fx = execute::fx_of(endpoint_path);
    let rec = child::record_path(device_guid);
    assert(DEVICE_CLASSES_ROOT@.is_prefix_of(DEVICE_CLASSES_ROOT@)) by {
        assert(DEVICE_CLASSES_ROOT@.subrange(0, DEVICE_CLASSES_ROOT@.len() as int)
            =~= DEVICE_CLASSES_ROOT@);
    }
    lemma_fx_apart(endpoint_path, device_guid, DEVICE_CLASSES_ROOT@, device_guid);
    reveal_strlit("SOFTWARE\\Microsoft\\Windows\\CurrentVersion\\MMDevices\\Audio\\Render");
    reveal_strlit("SOFTWARE\\Microsoft\\Windows\\CurrentVersion\\MMDevices\\Audio\\Capture");
    reveal_strlit("SOFTWARE\\Microsoft\\Windows\\CurrentVersion\\Audio");
    reveal_strlit("SOFTWARE\\VxAPO\\Child APOs");
    if registry::is_below(AUDIO_KEY_PATH@, rec) {
        let head = AUDIO_KEY_PATH@.subrange(0, rec.len() as int);
        assert(head[9] == 'M');
        assert(rec[9] == 'V');
        lemma_differ(head, rec, 9);
    }
}

proof fn lemma_disable_undoable(r: Seq<KeyView>)
    requires
        undo::parented(r, Hkey::LocalMachine, AUDIO_KEY_PATH@),
    ensures
        undo::undoable(r, crate::install::audiodg::disable_ops()),
{
    let d = crate::install::audiodg::disable_ops();
    let none = Seq::<OpView>::empty();
    assert(undo::undoable(r, none));
    undo::lemma_undoable_create(r, none, Hkey::LocalMachine, AUDIO_KEY_PATH@);
    undo::lemma_undoable_values(r, none + seq![d[0]], seq![d[1]]);
    assert(none + seq![d[0]] + seq![d[1]] =~= d);
}

/// The changes of a takeover are of values alone.
proof fn lemma_takeover_values(
    r: Seq<KeyView>,
    device_guid: Seq<char>,
    endpoint_path: Seq<char>,
    config: InstallConfig,
)
    ensures
        undo::only_values(capx::takeover_ops(r, device_guid, endpoint_path, config)),
{
    let changes = sysfx::change_ops(capx::takeover_changes(r, endpoint_path, config));
    assert(undo::only_values(changes));
}

/// Changes can be undone that make two keys, the first not below the second, and are of
/// values from then on.
proof fn lemma_two_keys_undoable(
    r: Seq<KeyView>,
    d: Seq<OpView>,
    f: Seq<OpView>,
    fx: Seq<char>,
    p: Seq<char>,
    rest: Seq<OpView>,
)
    requires
        undo::undoable(r, d),
        forall|i: int|
            0 <= i < d.len() ==> ((#[trigger] d[i]) matches OpView::CreateKey { root: q, path: s }
                ==> !registry::is_below(s, fx) && !registry::is_below(s, p)),
        f.len() == 0 || f == seq![OpView::CreateKey { root: Hkey::LocalMachine, path: fx }],
        undo::parented(r, Hkey::LocalMachine, fx),
        undo::parented(r, Hkey::LocalMachine, p),
        !registry::is_below(fx, p),
        undo::only_values(rest),
    ensures
        undo::undoable(
            r,
            d + f + seq![OpView::CreateKey { root: Hkey::LocalMachine, path: p }] + rest,
        ),
{
    let h = Hkey::LocalMachine;
    if f.len() > 0 {
        undo::lemma_undoable_create(r, d, h, fx);
    } else {
        assert(d + f =~= d);
    }
    let a = d + f;
    assert forall|i: int| 0 <= i < a.len() implies ((#[trigger] a[i]) matches OpView::CreateKey {
        root: q,
        path: s,
    } ==> !(q == h && registry::is_below(s, p))) by {
        if i < d.len() {
            assert(a[i] == d[i]);
        } else {
            assert(a[i] == f[i - d.len()]);
        }
    }
    undo::lemma_undoable_create(r, a, h, p);
    undo::lemma_undoable_values(r, a + seq![OpView::CreateKey { root: h, path: p }], rest);
}

proof fn lemma_regroup_entries(
    d: Seq<OpView>,
    f: Seq<OpView>,
    e: Seq<OpView>,
    t: Seq<OpView>,
)
    requires
        e.len() > 0,
    ensures
        d + (f + e + t) == d + f + seq![e[0]] + (e.skip(1) + t),
{
    assert(d + (f + e + t) =~= d + f + seq![e[0]] + (e.skip(1) + t));
}

/// Undoing an installation, whether or not it went through, leads back to the same
/// keys and the same values. No key may stand below one that is missing.
pub proof fn law_rollback_undoes_install(
    r: Seq<KeyView>,
    device_guid: Seq<char>,
    config: InstallConfig,
    refreshed: i32,
)
    requires
        undo::parented(r, Hkey::LocalMachine, AUDIO_KEY_PATH@),
        undo::parented(r, Hkey::LocalMachine, child::record_path(device_guid)),
        info::endpoint_path(execute::allowed(r), device_guid) matches Some(ep) ==> undo::parented(
            r,
            Hkey::LocalMachine,
            execute::fx_of(ep),
        ),
    ensures
        ({
            let ops = execute::config_ops(r, device_guid, config, refreshed);
            undo::same(
                registry::apply_all(
                    registry::apply_all(r, ops),
                    transaction::rollback_ops(transaction::actions_for(r, ops)),
                ),
                r,
            )
        }),
{
    let ops = execute::config_ops(r, device_guid, config, refreshed);
    let d = crate::install::audiodg::disable_ops();
    lemma_disable_undoable(r);
    match info::endpoint_path(execute::allowed(r), device_guid) {
        Some(ep) if refreshed == 0 => {
            let r0 = execute::allowed(r);
            let fx = execute::fx_of(ep);
            let p = child::record_path(device_guid);
            let f = helpers::fx_ops(r0, fx);
            let e = execute::entry_ops(execute::with_fx(r0, ep), device_guid, ep, config);
            let r2 = execute::with_entries(r0, device_guid, ep, config);
            let t = capx::takeover_ops(r2, device_guid, ep, config);
            lemma_places_apart(device_guid, ep);
            lemma_entry_values(execute::with_fx(r0, ep), device_guid, ep, config);
            lemma_takeover_values(r2, device_guid, ep, config);
            undo::lemma_only_values_concat(e.skip(1), t);
            lemma_two_keys_undoable(r, d, f, fx, p, e.skip(1) + t);
            lemma_regroup_entries(d, f, e, t);
        },
        _ => {},
    }
    transaction::lemma_rollback_undoes(r, ops);
    undo::law_undone(r, ops);
}

// ---------------------------------------------------------------------------
// Migrating an installation
// ---------------------------------------------------------------------------
/// No record of a migration is that of the target.
proof fn lemma_group_spares_target(
    list: Seq<RecordView>,
    target: ActiveView,
    old_guid: Seq<char>,
    new_guid: Seq<char>,
    primary: RecordView,
)
    ensures
        !migrate::names_guid(
            detect::record_guids(migrate::group_of(list, target, old_guid, new_guid, primary)),
            new_guid,
        ),
    decreases list.len(),
{
    let all = detect::record_guids(
        migrate::group_of(list, target, old_guid, new_guid, primary),
    );
    if list.len() > 0 {
        let t = list.drop_last();
        let rest = detect::record_guids(
            migrate::group_of(t, target, old_guid, new_guid, primary),
        );
        lemma_group_spares_target(t, target, old_guid, new_guid, primary);
        assert forall|i: int| 0 <= i < all.len() implies !text::eq_ci(
            #[trigger] all[i],
            new_guid,
        ) by {
            if i < rest.len() {
                assert(all[i] == rest[i]);
            }
        }
    }
}

/// A migration that can be planned, and whose target can be repaired where it needs
/// to be, goes through, whatever is refused of the merging and the deleting: the
/// installation on the target is whole once the records are merged, and stays so
/// when the old ones are deleted.
pub proof fn law_migration_succeeds(
    r: Seq<KeyView>,
    files: FilesView,
    old_guid: Seq<char>,
    new_guid: Seq<char>,
    config_from: Option<Seq<char>>,
    snapshot_from: Option<Seq<char>>,
    is_windows_8_1_or_newer: bool,
    code: i32,
    outcomes: migrate::OutcomesView,
)
    ensures
        migrate::planned(
            r,
            files,
            old_guid,
            new_guid,
            config_from,
            snapshot_from,
            is_windows_8_1_or_newer,
        ) matches Ok(plan) ==> execute::repair_error(r, plan, code) is None ==> ({
            let r1 = registry::apply_all(r, execute::before_merge(r, plan, code));
            &&& info::endpoint_path(r1, new_guid) matches Some(ep)
            &&& ({
                let adopted = registry::apply_all(
                    r1,
                    migrate::adopt_ops(r1, ep, new_guid, plan.group, plan.repaired, outcomes),
                );
                &&& detect::healthy(adopted, new_guid)
                &&& detect::healthy(
                    registry::apply_all(
                        adopted,
                        migrate::forget_ops(
                            plan.group,
                            outcomes.deletions,
                            plan.group.len(),
                        ),
                    ),
                    new_guid,
                )
            })
        }),
{
    match migrate::planned(
        r,
        files,
        old_guid,
        new_guid,
        config_from,
        snapshot_from,
        is_windows_8_1_or_newer,
    ) {
        Ok(plan) => {
            if execute::repair_error(r, plan, code) is None {
                let records = detect::stale_records(r, files, Seq::empty());
                let target = migrate::active_with(matching::active_set(r), new_guid).unwrap();
                let primary = migrate::record_with(records, old_guid).unwrap();
                lemma_group_spares_target(records, target, old_guid, new_guid, primary);
                if plan.repaired {
                    let a = execute::allowed(r);
                    let ep = info::endpoint_path(a, new_guid).unwrap();
                    let config = execute::repair_config(plan.mode);
                    registry::lemma_apply_all_concat(
                        r,
                        crate::install::audiodg::disable_ops(),
                        execute::install_ops(a, new_guid, ep, config),
                    );
                    law_install_is_whole(a, new_guid, ep, config);
                    law_install_is_recorded(a, new_guid, ep, config);
                    let r1 = registry::apply_all(r, execute::before_merge(r, plan, code));
                    migrate::law_migration_is_whole(
                        r1,
                        ep,
                        new_guid,
                        plan.group,
                        plan.repaired,
                        outcomes,
                    );
                } else {
                    let ep = info::endpoint_path(r, new_guid).unwrap();
                    assert(registry::apply_all(r, execute::before_merge(r, plan, code)) == r);
                    migrate::law_migration_is_whole(
                        r,
                        ep,
                        new_guid,
                        plan.group,
                        plan.repaired,
                        outcomes,
                    );
                }
            }
        },
        Err(_) => {},
    }
}

} // verus!
