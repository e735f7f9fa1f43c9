//! Giving templates back once they were taken over.

use vstd::prelude::*;
use crate::guid;
use crate::install::device::slots::InstallMode;
use crate::install::device::sysfx;
use crate::install::device::sysfx::{
    BackupView, ChangeView, PKEY_FX_MODE_EFFECT_CLSID, PKEY_FX_STREAM_EFFECT_CLSID, WMALFX_CONTEXT,
};
use crate::object::vx_reg_props::{clsid_post_mix, clsid_pre_mix};
use crate::registry;
use crate::registry::{Hkey, KeyView, OpView, ValueView};
use crate::text;
use crate::undo;

verus! {

/// Whether a template can be one of Microsoft's.
pub open spec fn known(r: Seq<KeyView>, path: Seq<char>) -> bool {
    let stream = sysfx::held(r, path, PKEY_FX_STREAM_EFFECT_CLSID@);
    sysfx::ms_stream(stream) || sysfx::own(stream) || registry::has_key(
        r,
        Hkey::LocalMachine,
        registry::join(path, WMALFX_CONTEXT@),
    )
}

/// Whether the stream effect of a template is taken over.
pub open spec fn takes_stream(r: Seq<KeyView>, path: Seq<char>, install_premix: bool) -> bool {
    let stream = sysfx::held(r, path, PKEY_FX_STREAM_EFFECT_CLSID@);
    known(r, path) && install_premix && sysfx::ms_stream(stream) && !sysfx::own(stream)
}

/// Whether the mode effect of a template gives way to this library's.
pub open spec fn replaces_mode(mode: InstallMode, install_postmix: bool) -> bool {
    mode == InstallMode::SfxMfx && install_postmix
}

/// Whether the mode effect of a template is taken over.
pub open spec fn takes_mode(
    r: Seq<KeyView>,
    path: Seq<char>,
    mode: InstallMode,
    install_postmix: bool,
) -> bool {
    let effect = sysfx::held(r, path, PKEY_FX_MODE_EFFECT_CLSID@);
    known(r, path) && if replaces_mode(mode, install_postmix) {
        sysfx::ms_mode(effect) && !sysfx::own(effect)
    } else {
        sysfx::ms_mode(effect) || sysfx::own(effect)
    }
}

/// What the mode effect of a template becomes that is taken over.
pub open spec fn mode_target(mode: InstallMode, install_postmix: bool) -> Option<Seq<char>> {
    if replaces_mode(mode, install_postmix) {
        Some(guid::guid_text(clsid_post_mix()))
    } else {
        None
    }
}

/// Whether a place is one of some, in whatever case.
pub open spec fn is_among(paths: Seq<Seq<char>>, path: Seq<char>) -> bool {
    exists|i: int| 0 <= i < paths.len() && text::eq_ci(#[trigger] paths[i], path)
}

/// The backup of a template.
pub open spec fn backup_for(
    r: Seq<KeyView>,
    path: Seq<char>,
    mode: InstallMode,
    install_premix: bool,
    install_postmix: bool,
) -> BackupView {
    BackupView {
        key_path: path,
        stream: if takes_stream(r, path, install_premix) {
            sysfx::held(r, path, PKEY_FX_STREAM_EFFECT_CLSID@)
        } else {
            None
        },
        mode: if takes_mode(r, path, mode, install_postmix) {
            sysfx::held(r, path, PKEY_FX_MODE_EFFECT_CLSID@)
        } else {
            None
        },
    }
}

proof fn lemma_names()
    ensures
        !text::eq_ci(PKEY_FX_STREAM_EFFECT_CLSID@, PKEY_FX_MODE_EFFECT_CLSID@),
        !text::eq_ci(PKEY_FX_MODE_EFFECT_CLSID@, PKEY_FX_STREAM_EFFECT_CLSID@),
        PKEY_FX_STREAM_EFFECT_CLSID@ != PKEY_FX_MODE_EFFECT_CLSID@,
        forall|n: Seq<char>|
            !(#[trigger] text::eq_ci(PKEY_FX_STREAM_EFFECT_CLSID@, n) && text::eq_ci(
                PKEY_FX_MODE_EFFECT_CLSID@,
                n,
            )),
{
    reveal_strlit("{D04E05A6-594B-4FB6-A80D-01AF5EED7D1D},5");
    reveal_strlit("{D04E05A6-594B-4FB6-A80D-01AF5EED7D1D},6");
    let a = text::ascii_lower(PKEY_FX_STREAM_EFFECT_CLSID@);
    let b = text::ascii_lower(PKEY_FX_MODE_EFFECT_CLSID@);
    assert(a[39] == '5');
    assert(b[39] == '6');
}

/// Places equal up to case are taken over alike.
proof fn lemma_takes_ci(
    r: Seq<KeyView>,
    p: Seq<char>,
    q: Seq<char>,
    mode: InstallMode,
    install_premix: bool,
    install_postmix: bool,
)
    requires
        text::eq_ci(p, q),
    ensures
        takes_stream(r, p, install_premix) == takes_stream(r, q, install_premix),
        takes_mode(r, p, mode, install_postmix) == takes_mode(r, q, mode, install_postmix),
        sysfx::held(r, p, PKEY_FX_STREAM_EFFECT_CLSID@) == sysfx::held(
            r,
            q,
            PKEY_FX_STREAM_EFFECT_CLSID@,
        ),
        sysfx::held(r, p, PKEY_FX_MODE_EFFECT_CLSID@) == sysfx::held(
            r,
            q,
            PKEY_FX_MODE_EFFECT_CLSID@,
        ),
{
    let h = Hkey::LocalMachine;
    let s = PKEY_FX_STREAM_EFFECT_CLSID@;
    let m = PKEY_FX_MODE_EFFECT_CLSID@;
    undo::lemma_value_at_ci(r, h, p, s, q, s);
    undo::lemma_value_at_ci(r, h, p, m, q, m);
    let a = registry::join(p, WMALFX_CONTEXT@);
    let b = registry::join(q, WMALFX_CONTEXT@);
    let tail = "\\"@ + WMALFX_CONTEXT@;
    assert(text::ascii_lower(p).len() == p.len());
    assert(text::ascii_lower(q).len() == q.len());
    assert forall|i: int| 0 <= i < a.len() implies text::ascii_lower(a)[i] == text::ascii_lower(
        b,
    )[i] by {
        if i < p.len() {
            assert(text::ascii_lower(p)[i] == text::ascii_lower(q)[i]);
        } else {
            assert(a[i] == tail[i - p.len()]);
            assert(b[i] == tail[i - q.len()]);
        }
    }
    assert(text::ascii_lower(a) =~= text::ascii_lower(b));
    registry::lemma_values_at_ci(r, h, a, b);
}

proof fn lemma_apply_one(r: Seq<KeyView>, op: OpView)
    ensures
        registry::apply_all(r, seq![op]) == registry::apply(r, op),
{
    let ops = seq![op];
    assert(ops.drop_last() =~= Seq::<OpView>::empty());
    assert(registry::apply_all(r, ops.drop_last()) == r);
}

/// What at most one change of a value leaves of any value.
proof fn lemma_changed_value(
    r: Seq<KeyView>,
    list: Seq<ChangeView>,
    path: Seq<char>,
    name: Seq<char>,
)
    requires
        list.len() <= 1,
        list.len() == 1 ==> registry::has_key(r, Hkey::LocalMachine, list[0].key_path),
    ensures
        registry::value_at(
            registry::apply_all(r, sysfx::change_ops(list)),
            Hkey::LocalMachine,
            path,
            name,
        ) == (if list.len() == 1 && text::eq_ci(list[0].key_path, path) && text::eq_ci(
            list[0].value_name,
            name,
        ) {
            match list[0].target {
                Some(t) => Some(ValueView::Sz(t)),
                None => None,
            }
        } else {
            registry::value_at(r, Hkey::LocalMachine, path, name)
        }),
{
    let h = Hkey::LocalMachine;
    let ops = sysfx::change_ops(list);
    if list.len() == 1 {
        let c = list[0];
        assert(ops =~= seq![sysfx::change_op(c)]);
        lemma_apply_one(r, sysfx::change_op(c));
        match c.target {
            Some(t) => registry::law_read_after_write(
                r,
                h,
                c.key_path,
                c.value_name,
                ValueView::Sz(t),
                h,
                path,
                name,
            ),
            None => registry::law_deleted_value_is_gone(
                r,
                h,
                c.key_path,
                c.value_name,
                h,
                path,
                name,
            ),
        }
    } else {
        assert(ops =~= Seq::<OpView>::empty());
    }
}

/// Changes of effects leave every key in place, and every value of another hive.
proof fn lemma_changes_spare(
    r: Seq<KeyView>,
    list: Seq<ChangeView>,
    root: Hkey,
    path: Seq<char>,
    name: Seq<char>,
)
    ensures
        ({
            let after = registry::apply_all(r, sysfx::change_ops(list));
            &&& registry::has_key(after, root, path) == registry::has_key(r, root, path)
            &&& root != Hkey::LocalMachine ==> registry::value_at(after, root, path, name)
                == registry::value_at(r, root, path, name)
        }),
    decreases list.len(),
{
    let ops = sysfx::change_ops(list);
    if list.len() > 0 {
        let t = list.drop_last();
        lemma_changes_spare(r, t, root, path, name);
        assert(ops.drop_last() =~= sysfx::change_ops(t));
        let r1 = registry::apply_all(r, sysfx::change_ops(t));
        let op = sysfx::change_op(list.last());
        assert(ops.last() == op);
        registry::law_value_changes_keep_keys(r1, op, root, path);
        if root != Hkey::LocalMachine {
            assert(registry::untouched(seq![op], root, path, name));
            registry::law_untouched_value_stays(r1, seq![op], root, path, name);
            lemma_apply_one(r1, op);
        }
    }
}

/// A template's changes: at most one of each effect.
proof fn lemma_takeover_parts(
    r: Seq<KeyView>,
    path: Seq<char>,
    mode: InstallMode,
    install_premix: bool,
    install_postmix: bool,
)
    ensures
        sysfx::takeover_of(r, path, mode, install_premix, install_postmix) == sysfx::change_if(
            takes_stream(r, path, install_premix),
            path,
            PKEY_FX_STREAM_EFFECT_CLSID@,
            sysfx::held(r, path, PKEY_FX_STREAM_EFFECT_CLSID@),
            Some(guid::guid_text(clsid_pre_mix())),
        ) + sysfx::change_if(
            takes_mode(r, path, mode, install_postmix),
            path,
            PKEY_FX_MODE_EFFECT_CLSID@,
            sysfx::held(r, path, PKEY_FX_MODE_EFFECT_CLSID@),
            mode_target(mode, install_postmix),
        ),
{
    assert(Seq::<ChangeView>::empty() + Seq::<ChangeView>::empty()
        =~= Seq::<ChangeView>::empty());
}

/// What a value is once templates are taken over.
pub open spec fn taken_value(
    r: Seq<KeyView>,
    paths: Seq<Seq<char>>,
    mode: InstallMode,
    install_premix: bool,
    install_postmix: bool,
    path: Seq<char>,
    name: Seq<char>,
) -> Option<ValueView> {
    if is_among(paths, path) && text::eq_ci(PKEY_FX_STREAM_EFFECT_CLSID@, name) && takes_stream(
        r,
        path,
        install_premix,
    ) {
        Some(ValueView::Sz(guid::guid_text(clsid_pre_mix())))
    } else if is_among(paths, path) && text::eq_ci(PKEY_FX_MODE_EFFECT_CLSID@, name) && takes_mode(
        r,
        path,
        mode,
        install_postmix,
    ) {
        match mode_target(mode, install_postmix) {
            Some(t) => Some(ValueView::Sz(t)),
            None => None,
        }
    } else {
        registry::value_at(r, Hkey::LocalMachine, path, name)
    }
}

proof fn lemma_among_last(paths: Seq<Seq<char>>, path: Seq<char>)
    requires
        paths.len() > 0,
    ensures
        is_among(paths, path) == (is_among(paths.drop_last(), path) || text::eq_ci(
            paths.last(),
            path,
        )),
{
    let t = paths.drop_last();
    if is_among(t, path) {
        let i = choose|i: int| 0 <= i < t.len() && text::eq_ci(#[trigger] t[i], path);
        assert(text::eq_ci(paths[i], path));
    }
    if text::eq_ci(paths.last(), path) {
        assert(text::eq_ci(paths[paths.len() - 1], path));
    }
    if is_among(paths, path) && !text::eq_ci(paths.last(), path) {
        let i = choose|i: int| 0 <= i < paths.len() && text::eq_ci(#[trigger] paths[i], path);
        assert(text::eq_ci(t[i], path));
    }
}

proof fn lemma_taken_value(
    r: Seq<KeyView>,
    paths: Seq<Seq<char>>,
    mode: InstallMode,
    install_premix: bool,
    install_postmix: bool,
    path: Seq<char>,
    name: Seq<char>,
)
    requires
        sysfx::all_present(r, paths),
    ensures
        registry::value_at(
            registry::apply_all(
                r,
                sysfx::change_ops(
                    sysfx::takeover_plan(r, paths, mode, install_premix, install_postmix),
                ),
            ),
            Hkey::LocalMachine,
            path,
            name,
        ) == taken_value(r, paths, mode, install_premix, install_postmix, path, name),
    decreases paths.len(),
{
    let plan = sysfx::takeover_plan(r, paths, mode, install_premix, install_postmix);
    if paths.len() == 0 {
        assert(sysfx::change_ops(plan) =~= Seq::<OpView>::empty());
        assert(!is_among(paths, path));
    } else {
        let t = paths.drop_last();
        let p = paths.last();
        assert forall|i: int| 0 <= i < t.len() implies registry::has_key(
            r,
            Hkey::LocalMachine,
            #[trigger] t[i],
        ) by {
            assert(t[i] == paths[i]);
        }
        assert(registry::has_key(r, Hkey::LocalMachine, paths[paths.len() - 1]));
        lemma_taken_value(r, t, mode, install_premix, install_postmix, path, name);
        lemma_takeover_parts(r, p, mode, install_premix, install_postmix);
        lemma_among_last(paths, path);
        lemma_names();
        let before = sysfx::takeover_plan(r, t, mode, install_premix, install_postmix);
        let a = sysfx::change_if(
            takes_stream(r, p, install_premix),
            p,
            PKEY_FX_STREAM_EFFECT_CLSID@,
            sysfx::held(r, p, PKEY_FX_STREAM_EFFECT_CLSID@),
            Some(guid::guid_text(clsid_pre_mix())),
        );
        let b = sysfx::change_if(
            takes_mode(r, p, mode, install_postmix),
            p,
            PKEY_FX_MODE_EFFECT_CLSID@,
            sysfx::held(r, p, PKEY_FX_MODE_EFFECT_CLSID@),
            mode_target(mode, install_postmix),
        );
        assert(sysfx::change_ops(plan) =~= sysfx::change_ops(before) + sysfx::change_ops(a)
            + sysfx::change_ops(b));
        let r1 = registry::apply_all(r, sysfx::change_ops(before));
        let r2 = registry::apply_all(r1, sysfx::change_ops(a));
        registry::lemma_apply_all_concat(
            r,
            sysfx::change_ops(before) + sysfx::change_ops(a),
            sysfx::change_ops(b),
        );
        registry::lemma_apply_all_concat(r, sysfx::change_ops(before), sysfx::change_ops(a));
        lemma_changes_spare(r, before, Hkey::LocalMachine, p, name);
        lemma_changes_spare(r1, a, Hkey::LocalMachine, p, name);
        lemma_changed_value(r1, a, path, name);
        lemma_changed_value(r2, b, path, name);
        if text::eq_ci(p, path) {
            lemma_takes_ci(r, p, path, mode, install_premix, install_postmix);
        }
    }
}

/// Whether backups are those of some templates, each whole, and there is one of
/// every template that is taken over.
pub open spec fn are_backups(
    r: Seq<KeyView>,
    paths: Seq<Seq<char>>,
    mode: InstallMode,
    install_premix: bool,
    install_postmix: bool,
    list: Seq<BackupView>,
) -> bool {
    &&& forall|j: int|
        0 <= j < list.len() ==> paths.contains((#[trigger] list[j]).key_path) && list[j]
            == backup_for(r, list[j].key_path, mode, install_premix, install_postmix)
    &&& forall|i: int|
        0 <= i < paths.len() && (takes_stream(r, #[trigger] paths[i], install_premix) || takes_mode(
            r,
            paths[i],
            mode,
            install_postmix,
        )) ==> has_backup(list, paths[i])
}

/// Whether one of some backups is that of a place.
pub open spec fn has_backup(list: Seq<BackupView>, path: Seq<char>) -> bool {
    exists|j: int| 0 <= j < list.len() && (#[trigger] list[j]).key_path == path
}

proof fn lemma_backup_found(list: Seq<BackupView>, path: Seq<char>)
    ensures
        ({
            let i = sysfx::backup_index(list, path);
            &&& 0 <= i <= list.len()
            &&& (i < list.len()) == has_backup(list, path)
            &&& i < list.len() ==> list[i].key_path == path
        }),
    decreases list.len(),
{
    let i = sysfx::backup_index(list, path);
    if list.len() > 0 {
        let t = list.drop_first();
        lemma_backup_found(t, path);
        if list[0].key_path == path {
            assert(has_backup(list, path));
        } else {
            assert(i == 1 + sysfx::backup_index(t, path));
            if has_backup(t, path) {
                let j = choose|j: int| 0 <= j < t.len() && (#[trigger] t[j]).key_path == path;
                assert(list[j + 1].key_path == path);
            }
            if has_backup(list, path) {
                let j = choose|j: int|
                    0 <= j < list.len() && (#[trigger] list[j]).key_path == path;
                assert(t[j - 1].key_path == path);
            }
        }
    }
}

/// The backups with what one more template's changes found.
proof fn lemma_backups_step(
    r: Seq<KeyView>,
    before: Seq<ChangeView>,
    path: Seq<char>,
    mode: InstallMode,
    install_premix: bool,
    install_postmix: bool,
)
    requires
        forall|j: int|
            0 <= j < sysfx::backups_of(before).len() && (#[trigger] sysfx::backups_of(
                before,
            )[j]).key_path == path ==> sysfx::backups_of(before)[j] == backup_for(
                r,
                path,
                mode,
                install_premix,
                install_postmix,
            ),
    ensures
        ({
            let list = sysfx::backups_of(before);
            let after = sysfx::backups_of(
                before + sysfx::takeover_of(r, path, mode, install_premix, install_postmix),
            );
            if has_backup(list, path) || !(takes_stream(r, path, install_premix) || takes_mode(
                r,
                path,
                mode,
                install_postmix,
            )) {
                after == list
            } else {
                after == list.push(
                    backup_for(r, path, mode, install_premix, install_postmix),
                )
            }
        }),
{
    lemma_names();
    lemma_takeover_parts(r, path, mode, install_premix, install_postmix);
    let list = sysfx::backups_of(before);
    let full = backup_for(r, path, mode, install_premix, install_postmix);
    let s = takes_stream(r, path, install_premix);
    let m = takes_mode(r, path, mode, install_postmix);
    let stream = sysfx::held(r, path, PKEY_FX_STREAM_EFFECT_CLSID@);
    let effect = sysfx::held(r, path, PKEY_FX_MODE_EFFECT_CLSID@);
    let a = sysfx::change_if(
        s,
        path,
        PKEY_FX_STREAM_EFFECT_CLSID@,
        stream,
        Some(guid::guid_text(clsid_pre_mix())),
    );
    let b = sysfx::change_if(
        m,
        path,
        PKEY_FX_MODE_EFFECT_CLSID@,
        effect,
        mode_target(mode, install_postmix),
    );
    let all = before + sysfx::takeover_of(r, path, mode, install_premix, install_postmix);
    let first = before + a;
    assert(all =~= first + b);
    lemma_backup_found(list, path);
    let i = sysfx::backup_index(list, path);
    if s {
        assert(first.drop_last() =~= before);
        assert(first.last() == a[0]);
        if i < list.len() {
            assert(list[i] == full);
            assert(sysfx::noted(list[i], a[0]) == full);
            assert(list.update(i, full) =~= list);
        }
    } else {
        assert(first =~= before);
    }
    let mid = sysfx::backups_of(first);
    lemma_backup_found(mid, path);
    if m {
        assert(all.drop_last() =~= first);
        assert(all.last() == b[0]);
        if i < list.len() {
            assert(mid == list);
            assert(sysfx::noted(list[i], b[0]) == full);
            assert(list.update(i, full) =~= list);
        } else if s {
            let k = list.len() as int;
            assert(mid[k].key_path == path);
            assert(has_backup(mid, path));
            let x = sysfx::backup_index(mid, path);
            assert(x == k) by {
                if x < k {
                    assert(mid[x] == list[x]);
                    assert(has_backup(list, path));
                }
            }
            assert(mid.update(k, full) =~= list.push(full));
        }
    } else {
        assert(all =~= first);
    }
}

proof fn lemma_backups(
    r: Seq<KeyView>,
    paths: Seq<Seq<char>>,
    mode: InstallMode,
    install_premix: bool,
    install_postmix: bool,
)
    ensures
        are_backups(
            r,
            paths,
            mode,
            install_premix,
            install_postmix,
            sysfx::backups_of(
                sysfx::takeover_plan(r, paths, mode, install_premix, install_postmix),
            ),
        ),
    decreases paths.len(),
{
    let plan = sysfx::takeover_plan(r, paths, mode, install_premix, install_postmix);
    let list = sysfx::backups_of(plan);
    if paths.len() > 0 {
        let t = paths.drop_last();
        let p = paths.last();
        let before = sysfx::takeover_plan(r, t, mode, install_premix, install_postmix);
        let known_list = sysfx::backups_of(before);
        lemma_backups(r, t, mode, install_premix, install_postmix);
        lemma_backups_step(r, before, p, mode, install_premix, install_postmix);
        assert forall|j: int| 0 <= j < list.len() implies paths.contains(
            (#[trigger] list[j]).key_path,
        ) && list[j] == backup_for(r, list[j].key_path, mode, install_premix, install_postmix) by {
            if j < known_list.len() {
                assert(list[j] == known_list[j]);
                let k = choose|k: int| 0 <= k < t.len() && t[k] == list[j].key_path;
                assert(paths[k] == list[j].key_path);
            } else {
                assert(paths[paths.len() - 1] == p);
            }
        }
        assert forall|i: int|
            0 <= i < paths.len() && (takes_stream(r, #[trigger] paths[i], install_premix)
                || takes_mode(r, paths[i], mode, install_postmix)) implies has_backup(
            list,
            paths[i],
        ) by {
            if i < t.len() {
                assert(t[i] == paths[i]);
                assert(has_backup(known_list, t[i]));
                let j = choose|j: int|
                    0 <= j < known_list.len() && (#[trigger] known_list[j]).key_path == paths[i];
                assert(list[j].key_path == paths[i]);
            } else if has_backup(known_list, p) {
                assert(list == known_list);
            } else {
                assert(list[known_list.len() as int].key_path == p);
            }
        }
    }
}

/// Whether one of some backups keeps a value of a place.
pub open spec fn keeps_value(list: Seq<BackupView>, path: Seq<char>, name: Seq<char>) -> bool {
    exists|j: int|
        0 <= j < list.len() && text::eq_ci((#[trigger] list[j]).key_path, path) && ((text::eq_ci(
            PKEY_FX_STREAM_EFFECT_CLSID@,
            name,
        ) && list[j].stream is Some) || (text::eq_ci(PKEY_FX_MODE_EFFECT_CLSID@, name)
            && list[j].mode is Some))
}

proof fn lemma_keeps_last(list: Seq<BackupView>, path: Seq<char>, name: Seq<char>)
    requires
        list.len() > 0,
    ensures
        keeps_value(list, path, name) == (keeps_value(list.drop_last(), path, name) || (text::eq_ci(
            list.last().key_path,
            path,
        ) && ((text::eq_ci(PKEY_FX_STREAM_EFFECT_CLSID@, name) && list.last().stream is Some) || (
        text::eq_ci(PKEY_FX_MODE_EFFECT_CLSID@, name) && list.last().mode is Some)))),
{
    let t = list.drop_last();
    if keeps_value(t, path, name) {
        let j = choose|j: int|
            0 <= j < t.len() && text::eq_ci((#[trigger] t[j]).key_path, path) && ((text::eq_ci(
                PKEY_FX_STREAM_EFFECT_CLSID@,
                name,
            ) && t[j].stream is Some) || (text::eq_ci(PKEY_FX_MODE_EFFECT_CLSID@, name)
                && t[j].mode is Some));
        assert(list[j] == t[j]);
    }
    assert(list[list.len() - 1] == list.last());
    if keeps_value(list, path, name) {
        let j = choose|j: int|
            0 <= j < list.len() && text::eq_ci((#[trigger] list[j]).key_path, path) && ((
            text::eq_ci(PKEY_FX_STREAM_EFFECT_CLSID@, name) && list[j].stream is Some) || (
            text::eq_ci(PKEY_FX_MODE_EFFECT_CLSID@, name) && list[j].mode is Some));
        if j < t.len() {
            assert(t[j] == list[j]);
        }
    }
}

/// Whether a backup can be given back as a whole: each value that it keeps is the
/// one from before, and its place is free; what it does not keep is not this
/// library's.
pub open spec fn can_go_back(r: Seq<KeyView>, r1: Seq<KeyView>, b: BackupView) -> bool {
    let stream = sysfx::held(r1, b.key_path, PKEY_FX_STREAM_EFFECT_CLSID@);
    let effect = sysfx::held(r1, b.key_path, PKEY_FX_MODE_EFFECT_CLSID@);
    &&& registry::has_key(r1, Hkey::LocalMachine, b.key_path)
    &&& match b.stream {
        Some(t) => sysfx::vacant(stream) && sysfx::held(
            r,
            b.key_path,
            PKEY_FX_STREAM_EFFECT_CLSID@,
        ) == Some(t),
        None => !sysfx::own(stream),
    }
    &&& match b.mode {
        Some(t) => sysfx::vacant(effect) && sysfx::held(r, b.key_path, PKEY_FX_MODE_EFFECT_CLSID@)
            == Some(t),
        None => !sysfx::own(effect),
    }
}

proof fn lemma_given_back_value(
    r: Seq<KeyView>,
    r1: Seq<KeyView>,
    list: Seq<BackupView>,
    path: Seq<char>,
    name: Seq<char>,
)
    requires
        forall|j: int| 0 <= j < list.len() ==> can_go_back(r, r1, #[trigger] list[j]),
    ensures
        registry::value_at(
            registry::apply_all(r1, sysfx::change_ops(sysfx::restore_plan(r1, list))),
            Hkey::LocalMachine,
            path,
            name,
        ) == (if keeps_value(list, path, name) {
            registry::value_at(r, Hkey::LocalMachine, path, name)
        } else {
            registry::value_at(r1, Hkey::LocalMachine, path, name)
        }),
    decreases list.len(),
{
    let h = Hkey::LocalMachine;
    let plan = sysfx::restore_plan(r1, list);
    if list.len() == 0 {
        assert(sysfx::change_ops(plan) =~= Seq::<OpView>::empty());
    } else {
        let t = list.drop_last();
        let b = list.last();
        assert forall|j: int| 0 <= j < t.len() implies can_go_back(r, r1, #[trigger] t[j]) by {
            assert(t[j] == list[j]);
        }
        assert(can_go_back(r, r1, list[list.len() - 1]));
        lemma_given_back_value(r, r1, t, path, name);
        lemma_keeps_last(list, path, name);
        lemma_names();
        let before = sysfx::restore_plan(r1, t);
        let x = sysfx::restore_value(
            b.key_path,
            PKEY_FX_STREAM_EFFECT_CLSID@,
            sysfx::held(r1, b.key_path, PKEY_FX_STREAM_EFFECT_CLSID@),
            b.stream,
        );
        let y = sysfx::restore_value(
            b.key_path,
            PKEY_FX_MODE_EFFECT_CLSID@,
            sysfx::held(r1, b.key_path, PKEY_FX_MODE_EFFECT_CLSID@),
            b.mode,
        );
        assert(sysfx::change_ops(plan) =~= sysfx::change_ops(before) + sysfx::change_ops(x)
            + sysfx::change_ops(y));
        let r2 = registry::apply_all(r1, sysfx::change_ops(before));
        let r3 = registry::apply_all(r2, sysfx::change_ops(x));
        registry::lemma_apply_all_concat(
            r1,
            sysfx::change_ops(before) + sysfx::change_ops(x),
            sysfx::change_ops(y),
        );
        registry::lemma_apply_all_concat(r1, sysfx::change_ops(before), sysfx::change_ops(x));
        lemma_changes_spare(r1, before, h, b.key_path, name);
        lemma_changes_spare(r2, x, h, b.key_path, name);
        lemma_changed_value(r2, x, path, name);
        lemma_changed_value(r3, y, path, name);
        if text::eq_ci(b.key_path, path) {
            if text::eq_ci(PKEY_FX_STREAM_EFFECT_CLSID@, name) {
                undo::lemma_value_at_ci(
                    r,
                    h,
                    b.key_path,
                    PKEY_FX_STREAM_EFFECT_CLSID@,
                    path,
                    name,
                );
            }
            if text::eq_ci(PKEY_FX_MODE_EFFECT_CLSID@, name) {
                undo::lemma_value_at_ci(r, h, b.key_path, PKEY_FX_MODE_EFFECT_CLSID@, path, name);
            }
        }
    }
}

/// Giving templates back that were taken over leads back to the same keys and the
/// same values, where none of them held an effect of this library's before; every
/// template is there to be given back.
pub proof fn law_restore_undoes_takeover(
    r: Seq<KeyView>,
    paths: Seq<Seq<char>>,
    mode: InstallMode,
    install_premix: bool,
    install_postmix: bool,
)
    requires
        sysfx::all_present(r, paths),
        forall|i: int|
            0 <= i < paths.len() ==> !sysfx::own(
                sysfx::held(r, #[trigger] paths[i], PKEY_FX_STREAM_EFFECT_CLSID@),
            ) && !sysfx::own(sysfx::held(r, paths[i], PKEY_FX_MODE_EFFECT_CLSID@)),
    ensures
        ({
            let taken = sysfx::takeover_plan(r, paths, mode, install_premix, install_postmix);
            let r1 = registry::apply_all(r, sysfx::change_ops(taken));
            let kept = sysfx::backups_of(taken);
            &&& sysfx::all_present(r1, sysfx::backup_paths(kept))
            &&& undo::same(
                registry::apply_all(r1, sysfx::change_ops(sysfx::restore_plan(r1, kept))),
                r,
            )
        }),
{
    let h = Hkey::LocalMachine;
    let s = PKEY_FX_STREAM_EFFECT_CLSID@;
    let m = PKEY_FX_MODE_EFFECT_CLSID@;
    let taken = sysfx::takeover_plan(r, paths, mode, install_premix, install_postmix);
    let r1 = registry::apply_all(r, sysfx::change_ops(taken));
    let kept = sysfx::backups_of(taken);
    let plan = sysfx::restore_plan(r1, kept);
    let r2 = registry::apply_all(r1, sysfx::change_ops(plan));
    lemma_backups(r, paths, mode, install_premix, install_postmix);
    lemma_names();
    assert(sysfx::own(Some(guid::guid_text(clsid_pre_mix()))));
    assert(sysfx::own(Some(guid::guid_text(clsid_post_mix()))));
    assert forall|j: int| 0 <= j < kept.len() implies can_go_back(r, r1, #[trigger] kept[j]) by {
        let p = kept[j].key_path;
        let k = choose|k: int| 0 <= k < paths.len() && paths[k] == p;
        assert(registry::has_key(r, h, paths[k]));
        assert(!sysfx::own(sysfx::held(r, paths[k], s)));
        assert(text::eq_ci(paths[k], p));
        assert(is_among(paths, p));
        assert(text::eq_ci(s, s) && text::eq_ci(m, m));
        lemma_changes_spare(r, taken, h, p, s);
        lemma_taken_value(r, paths, mode, install_premix, install_postmix, p, s);
        lemma_taken_value(r, paths, mode, install_premix, install_postmix, p, m);
    }
    let places = sysfx::backup_paths(kept);
    assert forall|j: int| 0 <= j < places.len() implies registry::has_key(
        r1,
        h,
        #[trigger] places[j],
    ) by {
        assert(can_go_back(r, r1, kept[j]));
    }
    assert forall|root: Hkey, path: Seq<char>| #[trigger]
        registry::has_key(r2, root, path) == registry::has_key(r, root, path) by {
        lemma_changes_spare(r, taken, root, path, s);
        lemma_changes_spare(r1, plan, root, path, s);
    }
    assert forall|root: Hkey, path: Seq<char>, name: Seq<char>| #[trigger]
        registry::value_at(r2, root, path, name) == registry::value_at(r, root, path, name) by {
        if root != h {
            lemma_changes_spare(r, taken, root, path, name);
            lemma_changes_spare(r1, plan, root, path, name);
        } else {
            lemma_taken_value(r, paths, mode, install_premix, install_postmix, path, name);
            lemma_given_back_value(r, r1, kept, path, name);
            let stream = text::eq_ci(s, name) && takes_stream(r, path, install_premix);
            let effect = text::eq_ci(m, name) && takes_mode(r, path, mode, install_postmix);
            if is_among(paths, path) && (stream || effect) {
                let i = choose|i: int|
                    0 <= i < paths.len() && text::eq_ci(#[trigger] paths[i], path);
                lemma_takes_ci(r, paths[i], path, mode, install_premix, install_postmix);
                assert(has_backup(kept, paths[i]));
                let j = choose|j: int|
                    0 <= j < kept.len() && (#[trigger] kept[j]).key_path == paths[i];
                assert(kept[j] == backup_for(
                    r,
                    paths[i],
                    mode,
                    install_premix,
                    install_postmix,
                ));
                assert(keeps_value(kept, path, name));
            }
        }
    }
}

/// Giving templates back replaces no effect but this library's, and puts none where
/// another stands.
pub proof fn law_restore_spares_others(r: Seq<KeyView>, list: Seq<BackupView>)
    ensures
        forall|i: int|
            0 <= i < sysfx::restore_plan(r, list).len() ==> {
                let c = #[trigger] sysfx::restore_plan(r, list)[i];
                &&& c.original == sysfx::held(r, c.key_path, c.value_name)
                &&& sysfx::vacant(c.original)
            },
    decreases list.len(),
{
    if list.len() > 0 {
        law_restore_spares_others(r, list.drop_last());
    }
}

} // verus!
