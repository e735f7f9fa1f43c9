//! What holds once an installation is in place, removed or undone.

use vstd::prelude::*;
use crate::guid;
use crate::guid::GUID;
use crate::host::installation::install;
use crate::host::installation::install::{
    InstallConfig, CHILD_GUID_VALUE, DEFAULT_PROCESSMODE_VALUE,
};
use crate::install::device::identity;
use crate::install::device::info::DISABLE_ENHANCEMENTS_VALUE;
use crate::install::device::slots::read;
use crate::install::device::slots::types;
use crate::install::device::slots::types::SLOT_NAME_PREFIX;
use crate::install::device::slots::{ApoSlot, InstallMode, SlotValue, INSTALL_VERSION};
use crate::install::selector::operation::helpers::{
    ALLOW_SILENT_BUFFER_VALUE, AUTO_ADJUST_VALUE, VERSION_VALUE,
};
use crate::installation::rollback;
use crate::object::vx_reg_props::{clsid_post_mix, clsid_pre_mix};
use crate::registry;
use crate::registry::{Hkey, KeyView, OpView, ValueView};
use crate::text;
use crate::undo;

verus! {

/// Texts that differ somewhere beyond the case of a letter.
proof fn lemma_differ(a: Seq<char>, b: Seq<char>, i: int)
    requires
        0 <= i < a.len(),
        i < b.len(),
        text::lower_char(a[i]) != text::lower_char(b[i]),
    ensures
        !text::eq_ci(a, b),
{
    assert(text::ascii_lower(a)[i] == text::lower_char(a[i]));
    assert(text::ascii_lower(b)[i] == text::lower_char(b[i]));
}

/// The names of slots are those of no other effect property.
proof fn lemma_slot_apart(slot: ApoSlot)
    ensures
        !text::eq_ci(CHILD_GUID_VALUE@, types::slot_name(slot)),
        !text::eq_ci(ALLOW_SILENT_BUFFER_VALUE@, types::slot_name(slot)),
        !text::eq_ci(AUTO_ADJUST_VALUE@, types::slot_name(slot)),
        !text::eq_ci(VERSION_VALUE@, types::slot_name(slot)),
        !text::eq_ci(DEFAULT_PROCESSMODE_VALUE@, types::slot_name(slot)),
        !text::eq_ci(DISABLE_ENHANCEMENTS_VALUE@, types::slot_name(slot)),
        !text::eq_ci(types::slot_name(slot), VERSION_VALUE@),
{
    let name = types::slot_name(slot);
    reveal_strlit("{d04e05a6-594b-4fb6-a80d-01af5eed7d1d},");
    reveal_strlit("childGuid");
    reveal_strlit("allowSilentBuffer");
    reveal_strlit("autoAdjust");
    reveal_strlit("version");
    reveal_strlit("KSDATAFORMAT_SUBTYPE_DEFAULT_PROCESSMODE");
    reveal_strlit("DisableEnhancements");
    assert(name[0] == SLOT_NAME_PREFIX@[0]);
    lemma_differ(CHILD_GUID_VALUE@, name, 0);
    lemma_differ(ALLOW_SILENT_BUFFER_VALUE@, name, 0);
    lemma_differ(AUTO_ADJUST_VALUE@, name, 0);
    lemma_differ(VERSION_VALUE@, name, 0);
    lemma_differ(DEFAULT_PROCESSMODE_VALUE@, name, 0);
    lemma_differ(DISABLE_ENHANCEMENTS_VALUE@, name, 0);
    lemma_differ(name, VERSION_VALUE@, 0);
}

proof fn lemma_one(r: Seq<KeyView>, op: OpView)
    ensures
        registry::apply_all(r, seq![op]) == registry::apply(r, op),
{
    assert(seq![op].drop_last() =~= Seq::<OpView>::empty());
    assert(registry::apply_all(r, seq![op].drop_last()) == r);
}

/// The effect properties are there once the keys of an installation are made,
/// and stay through changes that delete no key.
proof fn lemma_fx_there(r: Seq<KeyView>, endpoint_path: Seq<char>, ops: Seq<OpView>)
    requires
        registry::keeps_keys(ops),
    ensures
        registry::has_key(
            registry::apply_all(r, install::key_ops(endpoint_path) + ops),
            Hkey::LocalMachine,
            install::fx_of(endpoint_path),
        ),
{
    let h = Hkey::LocalMachine;
    let fx = install::fx_of(endpoint_path);
    let keys = install::key_ops(endpoint_path);
    let rest = seq![keys[1]] + ops;
    assert(keys + ops =~= seq![keys[0]] + rest);
    registry::lemma_apply_all_concat(r, seq![keys[0]], rest);
    lemma_one(r, keys[0]);
    registry::law_created_key_exists(r, h, fx, h, fx);
    registry::lemma_keeps_keys_concat(seq![keys[1]], ops);
    registry::law_keys_stay(registry::apply(r, keys[0]), rest, h, fx);
}

/// No slot of the mode is touched when the others are cleared.
proof fn lemma_clear_spares(
    fx_path: Seq<char>,
    mode: InstallMode,
    slots: Seq<ApoSlot>,
    name: Seq<char>,
)
    requires
        forall|slot: ApoSlot|
            install::clears(mode, slot) ==> !text::eq_ci(#[trigger] types::slot_name(slot), name),
    ensures
        registry::untouched(
            install::clear_ops(Hkey::LocalMachine, fx_path, mode, slots),
            Hkey::LocalMachine,
            fx_path,
            name,
        ),
        registry::keeps_keys(install::clear_ops(Hkey::LocalMachine, fx_path, mode, slots)),
    decreases slots.len(),
{
    if slots.len() > 0 {
        let h = Hkey::LocalMachine;
        lemma_clear_spares(fx_path, mode, slots.drop_last(), name);
        let front = install::clear_ops(h, fx_path, mode, slots.drop_last());
        let one = identity::op_if(
            install::clears(mode, slots.last()),
            install::clear_op(h, fx_path, slots.last()),
        );
        assert(!install::clears(mode, slots.last()) || !text::eq_ci(
            types::slot_name(slots.last()),
            name,
        ));
        registry::lemma_untouched_concat(front, one, h, fx_path, name);
        registry::lemma_keeps_keys_concat(front, one);
    }
}

/// A slot that was filled with bytes holds their object.
proof fn lemma_filled(r: Seq<KeyView>, fx_path: Seq<char>, slot: ApoSlot, g: GUID)
    requires
        registry::value_at(r, Hkey::LocalMachine, fx_path, types::slot_name(slot)) == Some(
            ValueView::Binary(guid::guid_bytes(g)),
        ),
    ensures
        install::slot_at(r, fx_path, slot) == SlotValue::Guid(g),
{
    guid::law_guid_bytes_round_trip(g);
}

/// What an installation does before and after it puts the objects into their
/// slots deletes no key.
proof fn lemma_head_keeps_keys(r: Seq<KeyView>, endpoint_path: Seq<char>, config: InstallConfig)
    ensures
        ({
            let h = Hkey::LocalMachine;
            let fx = install::fx_of(endpoint_path);
            registry::keeps_keys(
                install::config_ops(
                    h,
                    fx,
                    config.allow_silent_buffer,
                    install::kept_child(r, fx, config),
                ) + install::clear_ops(h, fx, config.install_mode, types::all_slots()),
            )
        }),
{
    let h = Hkey::LocalMachine;
    let fx = install::fx_of(endpoint_path);
    let a = install::config_ops(
        h,
        fx,
        config.allow_silent_buffer,
        install::kept_child(r, fx, config),
    );
    let b = install::clear_ops(h, fx, config.install_mode, types::all_slots());
    let nowhere = seq!['?'];
    assert forall|slot: ApoSlot| !text::eq_ci(#[trigger] types::slot_name(slot), nowhere) by {
        reveal_strlit("{d04e05a6-594b-4fb6-a80d-01af5eed7d1d},");
        lemma_differ(types::slot_name(slot), nowhere, 0);
    }
    lemma_clear_spares(fx, config.install_mode, types::all_slots(), nowhere);
    registry::lemma_keeps_keys_concat(a, b);
}

/// After an installation each slot that it uses holds the object of this
/// library's that belongs there.
pub proof fn law_install_fills_slots(
    r: Seq<KeyView>,
    endpoint_path: Seq<char>,
    config: InstallConfig,
)
    ensures
        ({
            let after = registry::apply_all(r, install::install_ops(r, endpoint_path, config));
            let fx = install::fx_of(endpoint_path);
            &&& config.install_premix ==> install::slot_at(
                after,
                fx,
                types::premix_of(config.install_mode),
            ) == SlotValue::Guid(clsid_pre_mix())
            &&& config.install_postmix ==> install::slot_at(
                after,
                fx,
                types::postmix_of(config.install_mode),
            ) == SlotValue::Guid(clsid_post_mix())
        }),
{
    let h = Hkey::LocalMachine;
    let fx = install::fx_of(endpoint_path);
    let mode = config.install_mode;
    let pre = types::premix_of(mode);
    let post = types::postmix_of(mode);
    let a = install::config_ops(
        h,
        fx,
        config.allow_silent_buffer,
        install::kept_child(r, fx, config),
    );
    let b = install::clear_ops(h, fx, mode, types::all_slots());
    let head = install::key_ops(endpoint_path) + (a + b);
    let fill_pre = install::fill_op(h, fx, pre, clsid_pre_mix());
    let fill_post = install::fill_op(h, fx, post, clsid_post_mix());
    let p = identity::op_if(config.install_premix, fill_pre);
    let q = identity::op_if(config.install_postmix, fill_post);
    let tail = seq![install::processmode_op(h, fx), install::enable_op(fx)];
    assert(install::install_ops(r, endpoint_path, config) =~= head + (p + (q + tail)));
    lemma_head_keeps_keys(r, endpoint_path, config);
    lemma_fx_there(r, endpoint_path, a + b);
    let ra = registry::apply_all(r, head);
    let rb = registry::apply_all(ra, p);
    let rc = registry::apply_all(rb, q);
    registry::lemma_apply_all_concat(r, head, p + (q + tail));
    registry::lemma_apply_all_concat(ra, p, q + tail);
    registry::lemma_apply_all_concat(rb, q, tail);
    registry::law_keys_stay(ra, p, h, fx);
    types::law_mode_slots(mode);
    types::law_slot_names_distinct(post, pre);
    lemma_slot_apart(pre);
    lemma_slot_apart(post);
    let after = registry::apply_all(rc, tail);
    if config.install_premix {
        lemma_one(ra, fill_pre);
        let v = ValueView::Binary(guid::guid_bytes(clsid_pre_mix()));
        registry::law_read_after_write(
            ra,
            h,
            fx,
            types::slot_name(pre),
            v,
            h,
            fx,
            types::slot_name(pre),
        );
        registry::law_untouched_value_stays(rb, q, h, fx, types::slot_name(pre));
        registry::law_untouched_value_stays(rc, tail, h, fx, types::slot_name(pre));
        lemma_filled(after, fx, pre, clsid_pre_mix());
    }
    if config.install_postmix {
        lemma_one(rb, fill_post);
        let v = ValueView::Binary(guid::guid_bytes(clsid_post_mix()));
        registry::law_read_after_write(
            rb,
            h,
            fx,
            types::slot_name(post),
            v,
            h,
            fx,
            types::slot_name(post),
        );
        registry::law_untouched_value_stays(rc, tail, h, fx, types::slot_name(post));
        lemma_filled(after, fx, post, clsid_post_mix());
    }
}

/// After an installation the effect properties hold the version.
pub proof fn law_install_is_recorded(
    r: Seq<KeyView>,
    endpoint_path: Seq<char>,
    config: InstallConfig,
)
    ensures
        ({
            let after = registry::apply_all(r, install::install_ops(r, endpoint_path, config));
            let fx = install::fx_of(endpoint_path);
            registry::value_at(after, Hkey::LocalMachine, fx, VERSION_VALUE@) == Some(
                ValueView::Sz(INSTALL_VERSION@),
            )
        }),
{
    let h = Hkey::LocalMachine;
    let fx = install::fx_of(endpoint_path);
    let mode = config.install_mode;
    let name = VERSION_VALUE@;
    let a = install::config_ops(
        h,
        fx,
        config.allow_silent_buffer,
        install::kept_child(r, fx, config),
    );
    let n = a.len() - 1;
    let first = a.take(n);
    let version = a[n];
    let b = install::clear_ops(h, fx, mode, types::all_slots());
    let c = install::object_ops(fx, config);
    let d = seq![install::processmode_op(h, fx), install::enable_op(fx)];
    let head = install::key_ops(endpoint_path) + first;
    let tail = b + (c + d);
    assert(a =~= first + seq![version]);
    assert(install::install_ops(r, endpoint_path, config) =~= head + (seq![version] + tail));
    lemma_fx_there(r, endpoint_path, first);
    let ra = registry::apply_all(r, head);
    let rb = registry::apply(ra, version);
    registry::lemma_apply_all_concat(r, head, seq![version] + tail);
    registry::lemma_apply_all_concat(ra, seq![version], tail);
    lemma_one(ra, version);
    registry::law_read_after_write(
        ra,
        h,
        fx,
        name,
        ValueView::Sz(INSTALL_VERSION@),
        h,
        fx,
        name,
    );
    assert forall|slot: ApoSlot| !text::eq_ci(#[trigger] types::slot_name(slot), name) by {
        lemma_slot_apart(slot);
    }
    lemma_clear_spares(fx, mode, types::all_slots(), name);
    lemma_slot_apart(types::premix_of(mode));
    lemma_slot_apart(types::postmix_of(mode));
    reveal_strlit("version");
    reveal_strlit("KSDATAFORMAT_SUBTYPE_DEFAULT_PROCESSMODE");
    reveal_strlit("DisableEnhancements");
    lemma_differ(DEFAULT_PROCESSMODE_VALUE@, name, 0);
    lemma_differ(DISABLE_ENHANCEMENTS_VALUE@, name, 0);
    registry::lemma_untouched_concat(c, d, h, fx, name);
    registry::lemma_untouched_concat(b, c + d, h, fx, name);
    registry::law_untouched_value_stays(rb, tail, h, fx, name);
}

/// Clearing slots clears those that hold an object of this library's.
proof fn lemma_vacated(r: Seq<KeyView>, fx_path: Seq<char>, slots: Seq<ApoSlot>, slot: ApoSlot)
    requires
        slots.contains(slot),
    ensures
        !install::holds_own(
            registry::apply_all(r, install::vacate_ops(r, fx_path, slots)),
            fx_path,
            slot,
        ),
    decreases slots.len(),
{
    let h = Hkey::LocalMachine;
    let front = slots.drop_last();
    let last = slots.last();
    let done = install::vacate_ops(r, fx_path, front);
    let op = install::clear_op(h, fx_path, last);
    let one = identity::op_if(install::holds_own(r, fx_path, last), op);
    let r1 = registry::apply_all(r, done);
    registry::lemma_apply_all_concat(r, done, one);
    if front.contains(slot) {
        lemma_vacated(r, fx_path, front, slot);
        if install::holds_own(r, fx_path, last) {
            lemma_one(r1, op);
            registry::law_deleted_value_is_gone(
                r1,
                h,
                fx_path,
                types::slot_name(last),
                h,
                fx_path,
                types::slot_name(slot),
            );
        }
    } else {
        let k = choose|k: int| 0 <= k < slots.len() && slots[k] == slot;
        if k < front.len() {
            assert(front[k] == slot);
        }
        assert(last == slot);
        if install::holds_own(r, fx_path, last) {
            lemma_one(r1, op);
            registry::law_deleted_value_is_gone(
                r1,
                h,
                fx_path,
                types::slot_name(slot),
                h,
                fx_path,
                types::slot_name(slot),
            );
        } else {
            install::lemma_vacate_spares(r, fx_path, front, slot);
            registry::law_untouched_value_stays(r, done, h, fx_path, types::slot_name(slot));
        }
    }
}

/// Once an installation is removed no slot holds an object of this library's, and
/// no version is recorded.
pub proof fn law_uninstall_is_complete(r: Seq<KeyView>, endpoint_path: Seq<char>, slot: ApoSlot)
    ensures
        ({
            let after = registry::apply_all(r, install::uninstall_ops(r, endpoint_path));
            let fx = install::fx_of(endpoint_path);
            !install::holds_own(after, fx, slot) && registry::value_at(
                after,
                Hkey::LocalMachine,
                fx,
                VERSION_VALUE@,
            ) is None
        }),
{
    let h = Hkey::LocalMachine;
    let fx = install::fx_of(endpoint_path);
    let make = seq![OpView::CreateKey { root: h, path: fx }];
    let v = install::vacate_ops(r, fx, types::all_slots());
    let t = install::tidy_ops(fx);
    let r1 = registry::apply_all(r, make);
    let r2 = registry::apply_all(r1, v);
    registry::lemma_apply_all_concat(r, make, v);
    registry::lemma_apply_all_concat(r, make + v, t);
    assert forall|s: ApoSlot| #[trigger] install::holds_own(r1, fx, s) == install::holds_own(
        r,
        fx,
        s,
    ) by {
        registry::law_untouched_value_stays(r, make, h, fx, types::slot_name(s));
    }
    install::lemma_vacate_same(r, r1, fx, types::all_slots());
    assert(types::all_slots().contains(slot)) by {
        read::law_slot_positions(slot);
        assert(types::all_slots()[types::slot_index(slot) as int] == slot);
    }
    lemma_vacated(r1, fx, types::all_slots(), slot);
    lemma_slot_apart(slot);
    registry::law_untouched_value_stays(r2, t, h, fx, types::slot_name(slot));
    let first = seq![t[0], t[1], t[2]];
    let rest = seq![t[4]];
    assert(t =~= first + (seq![t[3]] + rest));
    let r3 = registry::apply_all(r2, first);
    registry::lemma_apply_all_concat(r2, first, seq![t[3]] + rest);
    registry::lemma_apply_all_concat(r3, seq![t[3]], rest);
    lemma_one(r3, t[3]);
    registry::law_deleted_value_is_gone(r3, h, fx, VERSION_VALUE@, h, fx, VERSION_VALUE@);
    let r4 = registry::apply(r3, t[3]);
    lemma_one(r4, t[4]);
    registry::law_deleted_value_is_gone(
        r4,
        h,
        fx,
        DISABLE_ENHANCEMENTS_VALUE@,
        h,
        fx,
        VERSION_VALUE@,
    );
}

/// Undoing an installation leads back to the same keys and the same values. No key
/// may stand below one that is missing.
pub proof fn law_rollback_undoes_install(
    r: Seq<KeyView>,
    endpoint_path: Seq<char>,
    config: InstallConfig,
)
    requires
        undo::parented(r, Hkey::LocalMachine, install::fx_of(endpoint_path)),
        undo::parented(r, Hkey::LocalMachine, install::child_keys_of(endpoint_path)),
    ensures
        ({
            let ops = install::install_ops(r, endpoint_path, config);
            undo::same(
                registry::apply_all(
                    registry::apply_all(r, ops),
                    rollback::rollback_ops(rollback::actions_for(r, ops)),
                ),
                r,
            )
        }),
{
    let h = Hkey::LocalMachine;
    let fx = install::fx_of(endpoint_path);
    let c = install::child_keys_of(endpoint_path);
    let ops = install::install_ops(r, endpoint_path, config);
    let none = Seq::<OpView>::empty();
    assert(undo::undoable(r, none));
    undo::lemma_undoable_create(r, none, h, fx);
    let a1 = none + seq![OpView::CreateKey { root: h, path: fx }];
    reveal_strlit("\\");
    assert(fx.len() < c.len());
    undo::lemma_undoable_create(r, a1, h, c);
    let a2 = a1 + seq![OpView::CreateKey { root: h, path: c }];
    let v1 = install::config_ops(
        h,
        fx,
        config.allow_silent_buffer,
        install::kept_child(r, fx, config),
    );
    let v2 = install::clear_ops(h, fx, config.install_mode, types::all_slots());
    let v3 = install::object_ops(fx, config);
    let v4 = seq![install::processmode_op(h, fx), install::enable_op(fx)];
    lemma_clear_values(h, fx, config.install_mode, types::all_slots());
    assert(undo::only_values(v1));
    assert(undo::only_values(v3));
    undo::lemma_only_values_concat(v1, v2);
    undo::lemma_only_values_concat(v1 + v2, v3);
    undo::lemma_only_values_concat(v1 + v2 + v3, v4);
    undo::lemma_undoable_values(r, a2, v1 + v2 + v3 + v4);
    assert(ops =~= a2 + (v1 + v2 + v3 + v4));
    rollback::lemma_rollback_undoes(r, ops);
    undo::law_undone(r, ops);
}

proof fn lemma_clear_values(root: Hkey, path: Seq<char>, mode: InstallMode, slots: Seq<ApoSlot>)
    ensures
        undo::only_values(install::clear_ops(root, path, mode, slots)),
    decreases slots.len(),
{
    if slots.len() > 0 {
        lemma_clear_values(root, path, mode, slots.drop_last());
    }
}

} // verus!
