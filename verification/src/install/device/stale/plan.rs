//! What the plan of a migration promises.
//!
//! The laws here speak of the records of the installations, the files of the
//! endpoints and the target alone: which old endpoints a migration takes along,
//! which it leaves, and which files it picks.

use vstd::prelude::*;
use crate::guid;
use crate::install::device::identity;
use crate::install::device::info;
use crate::install::device::stale;
use crate::install::device::stale::detect;
use crate::install::device::stale::detect::RecordView;
use crate::install::device::stale::matching;
use crate::install::device::stale::matching::ActiveView;
use crate::install::device::stale::migrate;
use crate::install::device::stale::migrate::{PlanView, SourceView};
use crate::install::device::stale::FilesView;
use crate::registry::KeyView;
use crate::text;

verus! {

/// What is asked of a migration.
pub struct Asked {
    pub old_guid: Seq<char>,
    pub new_guid: Seq<char>,
    pub config_from: Option<Seq<char>>,
    pub snapshot_from: Option<Seq<char>>,
    pub is_windows_8_1_or_newer: bool,
}

/// Whether a migration comes to a plan.
pub open spec fn comes_to(r: Seq<KeyView>, files: FilesView, a: Asked, plan: PlanView) -> bool {
    migrate::planned(
        r,
        files,
        a.old_guid,
        a.new_guid,
        a.config_from,
        a.snapshot_from,
        a.is_windows_8_1_or_newer,
    ) matches Ok(p) && p == plan
}

/// Whether a record is the first of some with a GUID.
pub open spec fn is_first_record(list: Seq<RecordView>, k: int, g: Seq<char>) -> bool {
    &&& 0 <= k < list.len()
    &&& text::eq_ci(list[k].guid, g)
    &&& forall|j: int| 0 <= j < k ==> !text::eq_ci(#[trigger] list[j].guid, g)
}

/// Whether an active endpoint is the first of some with a GUID.
pub open spec fn is_first_active(list: Seq<ActiveView>, k: int, g: Seq<char>) -> bool {
    &&& 0 <= k < list.len()
    &&& text::eq_ci(list[k].guid, g)
    &&& forall|j: int| 0 <= j < k ==> !text::eq_ci(#[trigger] list[j].guid, g)
}

proof fn lemma_record_with(list: Seq<RecordView>, k: int, g: Seq<char>)
    requires
        is_first_record(list, k, g),
    ensures
        migrate::record_with(list, g) == Some(list[k]),
    decreases list.len(),
{
    if k > 0 {
        assert(!text::eq_ci(list[0].guid, g));
        let t = list.drop_first();
        assert(t[k - 1] == list[k]);
        assert forall|j: int| 0 <= j < k - 1 implies !text::eq_ci(#[trigger] t[j].guid, g) by {
            assert(t[j] == list[j + 1]);
        }
        lemma_record_with(t, k - 1, g);
    }
}

proof fn lemma_active_with(list: Seq<ActiveView>, k: int, g: Seq<char>)
    requires
        is_first_active(list, k, g),
    ensures
        migrate::active_with(list, g) == Some(list[k]),
    decreases list.len(),
{
    if k > 0 {
        assert(!text::eq_ci(list[0].guid, g));
        let t = list.drop_first();
        assert(t[k - 1] == list[k]);
        assert forall|j: int| 0 <= j < k - 1 implies !text::eq_ci(#[trigger] t[j].guid, g) by {
            assert(t[j] == list[j + 1]);
        }
        lemma_active_with(t, k - 1, g);
    }
}

proof fn lemma_no_record(list: Seq<RecordView>, g: Seq<char>)
    ensures
        migrate::record_with(list, g) is None <==> forall|j: int|
            0 <= j < list.len() ==> !text::eq_ci(#[trigger] list[j].guid, g),
    decreases list.len(),
{
    if list.len() > 0 {
        let t = list.drop_first();
        lemma_no_record(t, g);
        assert forall|j: int| 0 <= j < t.len() implies t[j] == #[trigger] list[j + 1] by {}
        if migrate::record_with(list, g) is None {
            assert forall|j: int| 0 <= j < list.len() implies !text::eq_ci(
                #[trigger] list[j].guid,
                g,
            ) by {
                if j > 0 {
                    assert(t[j - 1] == list[j]);
                    assert(!text::eq_ci(t[j - 1].guid, g));
                }
            }
        } else if !text::eq_ci(list[0].guid, g) {
            let j = choose|j: int| 0 <= j < t.len() && text::eq_ci(#[trigger] t[j].guid, g);
            assert(text::eq_ci(list[j + 1].guid, g));
        } else {
            assert(text::eq_ci(list[0].guid, g));
        }
    }
}

proof fn lemma_no_active(list: Seq<ActiveView>, g: Seq<char>)
    ensures
        migrate::active_with(list, g) is None <==> forall|j: int|
            0 <= j < list.len() ==> !text::eq_ci(#[trigger] list[j].guid, g),
    decreases list.len(),
{
    if list.len() > 0 {
        let t = list.drop_first();
        lemma_no_active(t, g);
        if migrate::active_with(list, g) is None {
            assert forall|j: int| 0 <= j < list.len() implies !text::eq_ci(
                #[trigger] list[j].guid,
                g,
            ) by {
                if j > 0 {
                    assert(t[j - 1] == list[j]);
                    assert(!text::eq_ci(t[j - 1].guid, g));
                }
            }
        } else if !text::eq_ci(list[0].guid, g) {
            let j = choose|j: int| 0 <= j < t.len() && text::eq_ci(#[trigger] t[j].guid, g);
            assert(t[j] == list[j + 1]);
            assert(text::eq_ci(list[j + 1].guid, g));
        } else {
            assert(text::eq_ci(list[0].guid, g));
        }
    }
}

/// Whether two records name the same device instance, each by its own identifier or
/// each by the one that is stored in it.
pub open spec fn same_device(a: RecordView, b: RecordView) -> bool {
    ||| ({
        let id = identity::device_id(a.device_instance_id);
        id.len() > 0 && id == identity::device_id(b.device_instance_id)
    })
    ||| ({
        let id = identity::values_identity(a.info_values).instance_id;
        id.len() > 0 && id == identity::values_identity(b.info_values).instance_id
    })
}

/// Whether an endpoint is among those that another had before, in whatever case.
pub open spec fn was_before(target: ActiveView, g: Seq<char>) -> bool {
    exists|i: int|
        0 <= i < target.identity.endpoint_history.len() && text::eq_ci(
            #[trigger] target.identity.endpoint_history[i],
            g,
        )
}

/// Whether a record goes along with a migration, as its reasons say.
pub open spec fn goes_along(
    rec: RecordView,
    target: ActiveView,
    old_guid: Seq<char>,
    new_guid: Seq<char>,
    primary: RecordView,
) -> bool {
    &&& !text::eq_ci(rec.guid, new_guid)
    &&& text::eq_ci(rec.guid, old_guid) || same_device(primary, rec) || was_before(target, rec.guid)
}

proof fn lemma_goes_along(
    rec: RecordView,
    target: ActiveView,
    old_guid: Seq<char>,
    new_guid: Seq<char>,
    primary: RecordView,
)
    ensures
        migrate::in_group(rec, target, old_guid, new_guid, primary) == goes_along(
            rec,
            target,
            old_guid,
            new_guid,
            primary,
        ),
{
}

proof fn lemma_group(
    list: Seq<RecordView>,
    target: ActiveView,
    old_guid: Seq<char>,
    new_guid: Seq<char>,
    primary: RecordView,
)
    ensures
        ({
            let group = migrate::group_of(list, target, old_guid, new_guid, primary);
            &&& forall|i: int|
                0 <= i < group.len() ==> list.contains(#[trigger] group[i]) && goes_along(
                    group[i],
                    target,
                    old_guid,
                    new_guid,
                    primary,
                )
            &&& forall|k: int|
                0 <= k < list.len() && goes_along(
                    #[trigger] list[k],
                    target,
                    old_guid,
                    new_guid,
                    primary,
                ) ==> group.contains(list[k])
        }),
    decreases list.len(),
{
    if list.len() > 0 {
        let t = list.drop_last();
        let last = list.last();
        let rest = migrate::group_of(t, target, old_guid, new_guid, primary);
        let group = migrate::group_of(list, target, old_guid, new_guid, primary);
        lemma_group(t, target, old_guid, new_guid, primary);
        lemma_goes_along(last, target, old_guid, new_guid, primary);
        assert(list[list.len() - 1] == last);
        assert forall|i: int| 0 <= i < group.len() implies list.contains(#[trigger] group[i])
            && goes_along(group[i], target, old_guid, new_guid, primary) by {
            if i < rest.len() {
                assert(group[i] == rest[i]);
                let k = choose|k: int| 0 <= k < t.len() && t[k] == rest[i];
                assert(list[k] == group[i]);
            }
        }
        assert forall|k: int|
            0 <= k < list.len() && goes_along(
                #[trigger] list[k],
                target,
                old_guid,
                new_guid,
                primary,
            ) implies group.contains(list[k]) by {
            if k < t.len() {
                assert(t[k] == list[k]);
                let j = choose|j: int| 0 <= j < rest.len() && rest[j] == t[k];
                assert(group[j] == list[k]);
            } else {
                assert(group[group.len() - 1] == last);
            }
        }
    }
}

/// The group of a plan, and the records and the target that it rests on.
proof fn lemma_plan(
    r: Seq<KeyView>,
    files: FilesView,
    a: Asked,
    plan: PlanView,
    primary: int,
    target: int,
)
    requires
        comes_to(r, files, a, plan),
        is_first_record(
            detect::stale_records(r, files, Seq::empty()),
            primary,
            a.old_guid,
        ),
        is_first_active(matching::active_set(r), target, a.new_guid),
    ensures
        ({
            let records = detect::stale_records(r, files, Seq::empty());
            plan.group == detect::record_guids(
                migrate::group_of(
                    records,
                    matching::active_set(r)[target],
                    a.old_guid,
                    a.new_guid,
                    records[primary],
                ),
            )
        }),
{
    lemma_record_with(detect::stale_records(r, files, Seq::empty()), primary, a.old_guid);
    lemma_active_with(matching::active_set(r), target, a.new_guid);
}

/// In every plan of a migration, each endpoint of the group has a record, is not the
/// target, and is the old endpoint, or its record names the same device instance as
/// that of the old endpoint, by its own identifier or by the stored one, or it stands
/// in the history of the target.
pub proof fn law_group_is_of_the_device(
    r: Seq<KeyView>,
    files: FilesView,
    a: Asked,
    plan: PlanView,
    primary: int,
    target: int,
    i: int,
)
    requires
        comes_to(r, files, a, plan),
        is_first_record(
            detect::stale_records(r, files, Seq::empty()),
            primary,
            a.old_guid,
        ),
        is_first_active(matching::active_set(r), target, a.new_guid),
        0 <= i < plan.group.len(),
    ensures
        ({
            let records = detect::stale_records(r, files, Seq::empty());
            exists|k: int|
                0 <= k < records.len() && (#[trigger] records[k]).guid == plan.group[i]
                    && !text::eq_ci(records[k].guid, a.new_guid) && (text::eq_ci(
                    records[k].guid,
                    a.old_guid,
                ) || same_device(records[primary], records[k]) || was_before(
                    matching::active_set(r)[target],
                    records[k].guid,
                ))
        }),
{
    let records = detect::stale_records(r, files, Seq::empty());
    let t = matching::active_set(r)[target];
    let p = records[primary];
    lemma_plan(r, files, a, plan, primary, target);
    lemma_group(records, t, a.old_guid, a.new_guid, p);
    let group = migrate::group_of(records, t, a.old_guid, a.new_guid, p);
    assert(plan.group[i] == group[i].guid);
    assert(records.contains(group[i]));
    let k = choose|k: int| 0 <= k < records.len() && records[k] == group[i];
    assert(records[k].guid == plan.group[i]);
}

/// In every plan of a migration, the group has the old endpoint, every endpoint but
/// the target whose record names the same device instance as that of the old endpoint,
/// and every endpoint with a record that stands in the history of the target.
pub proof fn law_group_has_the_whole_device(
    r: Seq<KeyView>,
    files: FilesView,
    a: Asked,
    plan: PlanView,
    primary: int,
    target: int,
    k: int,
)
    requires
        comes_to(r, files, a, plan),
        is_first_record(
            detect::stale_records(r, files, Seq::empty()),
            primary,
            a.old_guid,
        ),
        is_first_active(matching::active_set(r), target, a.new_guid),
        0 <= k < detect::stale_records(r, files, Seq::empty()).len(),
        ({
            let records = detect::stale_records(r, files, Seq::empty());
            &&& !text::eq_ci(records[k].guid, a.new_guid)
            &&& text::eq_ci(records[k].guid, a.old_guid) || same_device(
                records[primary],
                records[k],
            ) || was_before(matching::active_set(r)[target], records[k].guid)
        }),
    ensures
        plan.group.contains(detect::stale_records(r, files, Seq::empty())[k].guid),
{
    let records = detect::stale_records(r, files, Seq::empty());
    let t = matching::active_set(r)[target];
    let p = records[primary];
    lemma_plan(r, files, a, plan, primary, target);
    lemma_group(records, t, a.old_guid, a.new_guid, p);
    let group = migrate::group_of(records, t, a.old_guid, a.new_guid, p);
    assert(goes_along(records[k], t, a.old_guid, a.new_guid, p));
    let j = choose|j: int| 0 <= j < group.len() && group[j] == records[k];
    assert(plan.group[j] == records[k].guid);
}

/// The old endpoint is in the group of every plan.
pub proof fn law_group_has_the_old_endpoint(
    r: Seq<KeyView>,
    files: FilesView,
    a: Asked,
    plan: PlanView,
    primary: int,
    target: int,
)
    requires
        comes_to(r, files, a, plan),
        is_first_record(
            detect::stale_records(r, files, Seq::empty()),
            primary,
            a.old_guid,
        ),
        is_first_active(matching::active_set(r), target, a.new_guid),
    ensures
        plan.group.contains(detect::stale_records(r, files, Seq::empty())[primary].guid),
        plan.group.len() > 0,
{
    let records = detect::stale_records(r, files, Seq::empty());
    assert(text::eq_ci(records[primary].guid, a.old_guid));
    assert(!text::eq_ci(a.old_guid, a.new_guid));
    assert(!text::eq_ci(records[primary].guid, a.new_guid));
    law_group_has_the_whole_device(r, files, a, plan, primary, target, primary);
}

/// A migration can be planned exactly where both endpoints are named by GUIDs that
/// differ, the new one is there and active, the old one has a record, and the two are
/// not known to be of different devices.
pub proof fn law_when_a_migration_is_planned(r: Seq<KeyView>, files: FilesView, a: Asked)
    ensures
        (exists|plan: PlanView| comes_to(r, files, a, plan)) <==> {
            &&& guid::is_guid_text(a.old_guid)
            &&& guid::is_guid_text(a.new_guid)
            &&& !text::eq_ci(a.old_guid, a.new_guid)
            &&& info::endpoint_path(r, a.new_guid) is Some
            &&& exists|t: int, p: int|
                #![trigger matching::active_set(r)[t],
                    detect::stale_records(r, files, Seq::empty())[p]]
                is_first_active(matching::active_set(r), t, a.new_guid) && is_first_record(
                    detect::stale_records(r, files, Seq::empty()),
                    p,
                    a.old_guid,
                ) && ({
                    let old = identity::device_id(
                        detect::stale_records(r, files, Seq::empty())[p].device_instance_id,
                    );
                    let new = matching::active_set(r)[t].identity.instance_id;
                    old.len() == 0 || new.len() == 0 || old == new
                })
        },
{
    let records = detect::stale_records(r, files, Seq::empty());
    let active = matching::active_set(r);
    let outcome = migrate::planned(
        r,
        files,
        a.old_guid,
        a.new_guid,
        a.config_from,
        a.snapshot_from,
        a.is_windows_8_1_or_newer,
    );
    lemma_no_record(records, a.old_guid);
    lemma_no_active(active, a.new_guid);
    if migrate::record_with(records, a.old_guid) is Some && migrate::active_with(
        active,
        a.new_guid,
    ) is Some {
        let p = lemma_first_record(records, a.old_guid);
        let t = lemma_first_active(active, a.new_guid);
        lemma_record_with(records, p, a.old_guid);
        lemma_active_with(active, t, a.new_guid);
        assert(is_first_active(active, t, a.new_guid) && is_first_record(records, p, a.old_guid));
        assert forall|t2: int, p2: int|
            #![trigger active[t2], records[p2]]
            is_first_active(active, t2, a.new_guid) && is_first_record(
                records,
                p2,
                a.old_guid,
            ) implies t2 == t && p2 == p by {
            assert(text::eq_ci(active[t2].guid, a.new_guid));
            assert(text::eq_ci(records[p2].guid, a.old_guid));
        }
    }
    match outcome {
        Ok(plan) => {
            assert(comes_to(r, files, a, plan));
        },
        Err(_) => {},
    }
}

proof fn lemma_first_record(list: Seq<RecordView>, g: Seq<char>) -> (k: int)
    requires
        migrate::record_with(list, g) is Some,
    ensures
        is_first_record(list, k, g),
    decreases list.len(),
{
    if text::eq_ci(list[0].guid, g) {
        0
    } else {
        let t = list.drop_first();
        let j = lemma_first_record(t, g);
        assert(t[j] == list[j + 1]);
        assert forall|i: int| 0 <= i < j + 1 implies !text::eq_ci(#[trigger] list[i].guid, g) by {
            if i > 0 {
                assert(t[i - 1] == list[i]);
                assert(!text::eq_ci(t[i - 1].guid, g));
            }
        }
        j + 1
    }
}

proof fn lemma_first_active(list: Seq<ActiveView>, g: Seq<char>) -> (k: int)
    requires
        migrate::active_with(list, g) is Some,
    ensures
        is_first_active(list, k, g),
    decreases list.len(),
{
    if text::eq_ci(list[0].guid, g) {
        0
    } else {
        let t = list.drop_first();
        let j = lemma_first_active(t, g);
        assert(t[j] == list[j + 1]);
        assert forall|i: int| 0 <= i < j + 1 implies !text::eq_ci(#[trigger] list[i].guid, g) by {
            if i > 0 {
                assert(t[i - 1] == list[i]);
                assert(!text::eq_ci(t[i - 1].guid, g));
            }
        }
        j + 1
    }
}

// ---------------------------------------------------------------------------
// The files of a plan
// ---------------------------------------------------------------------------
proof fn lemma_source_of(list: Seq<SourceView>, g: Seq<char>, s: SourceView)
    ensures
        migrate::source_of(list, g) matches Some(c) ==> list.contains(c) && text::eq_ci(c.guid, g),
        list.contains(s) && text::eq_ci(s.guid, g) ==> migrate::source_of(list, g) is Some,
    decreases list.len(),
{
    if list.len() > 0 {
        let t = list.drop_first();
        lemma_source_of(t, g, s);
        if text::eq_ci(list[0].guid, g) {
            assert(list.contains(list[0]));
        } else {
            match migrate::source_of(t, g) {
                Some(c) => {
                    let k = choose|k: int| 0 <= k < t.len() && t[k] == c;
                    assert(list[k + 1] == c);
                },
                None => {},
            }
            if list.contains(s) {
                let k = choose|k: int| 0 <= k < list.len() && list[k] == s;
                if k > 0 {
                    assert(t[k - 1] == s);
                }
            }
        }
    }
}

/// Whether a source is the configuration of a record: at its place, with the time that
/// is known of it.
pub open spec fn is_config_of(rec: RecordView, s: SourceView) -> bool {
    &&& s.guid == rec.guid
    &&& s.path == "C:\\ProgramData\\VxAPO"@ + "\\"@ + rec.guid + "\\config.toml"@
    &&& rec.config matches Some(f) && f.mtime_ms == Some(s.mtime)
}

/// Whether a source is the configuration that the target has,
/// where it is longer than what an endpoint gets of itself.
pub open spec fn is_own_config(files: FilesView, g: Seq<char>, s: SourceView) -> bool {
    &&& s.guid == g
    &&& s.path == "C:\\ProgramData\\VxAPO"@ + "\\"@ + g + "\\config.toml"@
    &&& stale::files_of(files.entries, g).0 matches Some(f) && f.mtime_ms == Some(s.mtime) && f.len > 64
}

proof fn lemma_config_sources(group: Seq<RecordView>, s: SourceView)
    ensures
        migrate::config_sources(group).contains(s) <==> exists|i: int|
            0 <= i < group.len() && is_config_of(#[trigger] group[i], s),
    decreases group.len(),
{
    if group.len() > 0 {
        let t = group.drop_last();
        let rest = migrate::config_sources(t);
        let all = migrate::config_sources(group);
        lemma_config_sources(t, s);
        assert(group[group.len() - 1] == group.last());
        if all.contains(s) {
            let k = choose|k: int| 0 <= k < all.len() && all[k] == s;
            if k < rest.len() {
                assert(rest[k] == s);
                let i = choose|i: int| 0 <= i < t.len() && is_config_of(#[trigger] t[i], s);
                assert(t[i] == group[i]);
                assert(is_config_of(group[i], s));
            } else {
                assert(is_config_of(group[group.len() - 1], s));
            }
        }
        if exists|i: int| 0 <= i < group.len() && is_config_of(#[trigger] group[i], s) {
            let i = choose|i: int| 0 <= i < group.len() && is_config_of(#[trigger] group[i], s);
            if i < t.len() {
                assert(t[i] == group[i]);
                let k = choose|k: int| 0 <= k < rest.len() && rest[k] == s;
                assert(all[k] == s);
            } else {
                assert(all[all.len() - 1] == s);
            }
        }
    }
}

/// Whether a source is one that the configuration of a migration can come from: that of
/// a record that goes along, or that of the target.
pub open spec fn may_give_config(
    records: Seq<RecordView>,
    files: FilesView,
    a: Asked,
    primary: RecordView,
    target: ActiveView,
    s: SourceView,
) -> bool {
    ||| is_own_config(files, a.new_guid, s)
    ||| exists|k: int|
        0 <= k < records.len() && goes_along(
            #[trigger] records[k],
            target,
            a.old_guid,
            a.new_guid,
            primary,
        ) && is_config_of(records[k], s)
}

proof fn lemma_config_choices(
    records: Seq<RecordView>,
    files: FilesView,
    a: Asked,
    primary: RecordView,
    target: ActiveView,
    s: SourceView,
)
    ensures
        migrate::config_choices(
            migrate::group_of(records, target, a.old_guid, a.new_guid, primary),
            files,
            a.new_guid,
        ).contains(s) <==> may_give_config(records, files, a, primary, target, s),
{
    let group = migrate::group_of(records, target, a.old_guid, a.new_guid, primary);
    let rest = migrate::config_sources(group);
    let all = migrate::config_choices(group, files, a.new_guid);
    lemma_group(records, target, a.old_guid, a.new_guid, primary);
    lemma_config_sources(group, s);
    if all.contains(s) {
        let k = choose|k: int| 0 <= k < all.len() && all[k] == s;
        if k < rest.len() {
            assert(rest[k] == s);
            let i = choose|i: int| 0 <= i < group.len() && is_config_of(#[trigger] group[i], s);
            assert(records.contains(group[i]));
            let j = choose|j: int| 0 <= j < records.len() && records[j] == group[i];
            assert(goes_along(records[j], target, a.old_guid, a.new_guid, primary));
        } else {
            assert(is_own_config(files, a.new_guid, s));
        }
    }
    if may_give_config(records, files, a, primary, target, s) {
        if is_own_config(files, a.new_guid, s) {
            assert(all[all.len() - 1] == s);
        } else {
            let k = choose|k: int|
                0 <= k < records.len() && goes_along(
                    #[trigger] records[k],
                    target,
                    a.old_guid,
                    a.new_guid,
                    primary,
                ) && is_config_of(records[k], s);
            assert(group.contains(records[k]));
            let i = choose|i: int| 0 <= i < group.len() && group[i] == records[k];
            assert(is_config_of(group[i], s));
            let j = choose|j: int| 0 <= j < rest.len() && rest[j] == s;
            assert(all[j] == s);
        }
    }
}

/// The configuration that a plan takes, where none is asked for, is that of an endpoint
/// of the group or of the target, and none of these was written later; there is none
/// only where there is none to take. Where one is asked for, it is that of the endpoint
/// asked for.
pub proof fn law_config_is_the_last_written(
    r: Seq<KeyView>,
    files: FilesView,
    a: Asked,
    plan: PlanView,
    primary: int,
    target: int,
    s: SourceView,
)
    requires
        comes_to(r, files, a, plan),
        is_first_record(
            detect::stale_records(r, files, Seq::empty()),
            primary,
            a.old_guid,
        ),
        is_first_active(matching::active_set(r), target, a.new_guid),
    ensures
        ({
            let records = detect::stale_records(r, files, Seq::empty());
            let p = records[primary];
            let t = matching::active_set(r)[target];
            &&& plan.config_source == Some(s) ==> may_give_config(records, files, a, p, t, s)
            &&& may_give_config(records, files, a, p, t, s) ==> match a.config_from {
                None => plan.config_source matches Some(best) && best.mtime >= s.mtime,
                Some(g) => text::eq_ci(s.guid, g) ==> plan.config_source is Some,
            }
            &&& a.config_from matches Some(g) ==> (plan.config_source matches Some(chosen)
                ==> text::eq_ci(chosen.guid, g))
        }),
{
    let records = detect::stale_records(r, files, Seq::empty());
    let p = records[primary];
    let t = matching::active_set(r)[target];
    lemma_record_with(records, primary, a.old_guid);
    lemma_active_with(matching::active_set(r), target, a.new_guid);
    let group = migrate::group_of(records, t, a.old_guid, a.new_guid, p);
    let list = migrate::config_choices(group, files, a.new_guid);
    lemma_config_choices(records, files, a, p, t, s);
    match a.config_from {
        None => {
            migrate::law_latest(list);
            if list.contains(s) {
                let k = choose|k: int| 0 <= k < list.len() && list[k] == s;
                assert(list[k].mtime == s.mtime);
            }
        },
        Some(g) => {
            lemma_source_of(list, g, s);
        },
    }
}

/// Whether a source is the snapshot of a record: at its place, with the time that
/// is known of it.
pub open spec fn is_snapshot_of(rec: RecordView, s: SourceView) -> bool {
    &&& s.guid == rec.guid
    &&& s.path == "C:\\ProgramData\\VxAPO\\snapshots"@ + "\\"@ + rec.guid + ".json"@
    &&& rec.snapshot matches Some(f) && f.mtime_ms == Some(s.mtime)
}

/// Whether a source is the snapshot that the target has.
pub open spec fn is_own_snapshot(files: FilesView, g: Seq<char>, s: SourceView) -> bool {
    &&& s.guid == g
    &&& s.path == "C:\\ProgramData\\VxAPO\\snapshots"@ + "\\"@ + g + ".json"@
    &&& stale::files_of(files.entries, g).1 matches Some(f) && f.mtime_ms == Some(s.mtime)
}

proof fn lemma_snapshot_sources(group: Seq<RecordView>, s: SourceView)
    ensures
        migrate::snapshot_sources(group).contains(s) <==> exists|i: int|
            0 <= i < group.len() && is_snapshot_of(#[trigger] group[i], s),
    decreases group.len(),
{
    if group.len() > 0 {
        let t = group.drop_last();
        let rest = migrate::snapshot_sources(t);
        let all = migrate::snapshot_sources(group);
        lemma_snapshot_sources(t, s);
        assert(group[group.len() - 1] == group.last());
        if all.contains(s) {
            let k = choose|k: int| 0 <= k < all.len() && all[k] == s;
            if k < rest.len() {
                assert(rest[k] == s);
                let i = choose|i: int| 0 <= i < t.len() && is_snapshot_of(#[trigger] t[i], s);
                assert(t[i] == group[i]);
                assert(is_snapshot_of(group[i], s));
            } else {
                assert(is_snapshot_of(group[group.len() - 1], s));
            }
        }
        if exists|i: int| 0 <= i < group.len() && is_snapshot_of(#[trigger] group[i], s) {
            let i = choose|i: int| 0 <= i < group.len() && is_snapshot_of(#[trigger] group[i], s);
            if i < t.len() {
                assert(t[i] == group[i]);
                let k = choose|k: int| 0 <= k < rest.len() && rest[k] == s;
                assert(all[k] == s);
            } else {
                assert(all[all.len() - 1] == s);
            }
        }
    }
}

/// Whether a source is one that the snapshot of a migration can come from: that of
/// a record that goes along, or that of the target.
pub open spec fn may_give_snapshot(
    records: Seq<RecordView>,
    files: FilesView,
    a: Asked,
    primary: RecordView,
    target: ActiveView,
    s: SourceView,
) -> bool {
    ||| is_own_snapshot(files, a.new_guid, s)
    ||| exists|k: int|
        0 <= k < records.len() && goes_along(
            #[trigger] records[k],
            target,
            a.old_guid,
            a.new_guid,
            primary,
        ) && is_snapshot_of(records[k], s)
}

proof fn lemma_snapshot_choices(
    records: Seq<RecordView>,
    files: FilesView,
    a: Asked,
    primary: RecordView,
    target: ActiveView,
    s: SourceView,
)
    ensures
        migrate::snapshot_choices(
            migrate::group_of(records, target, a.old_guid, a.new_guid, primary),
            files,
            a.new_guid,
        ).contains(s) <==> may_give_snapshot(records, files, a, primary, target, s),
{
    let group = migrate::group_of(records, target, a.old_guid, a.new_guid, primary);
    let rest = migrate::snapshot_sources(group);
    let all = migrate::snapshot_choices(group, files, a.new_guid);
    lemma_group(records, target, a.old_guid, a.new_guid, primary);
    lemma_snapshot_sources(group, s);
    if all.contains(s) {
        let k = choose|k: int| 0 <= k < all.len() && all[k] == s;
        if k < rest.len() {
            assert(rest[k] == s);
            let i = choose|i: int| 0 <= i < group.len() && is_snapshot_of(#[trigger] group[i], s);
            assert(records.contains(group[i]));
            let j = choose|j: int| 0 <= j < records.len() && records[j] == group[i];
            assert(goes_along(records[j], target, a.old_guid, a.new_guid, primary));
        } else {
            assert(is_own_snapshot(files, a.new_guid, s));
        }
    }
    if may_give_snapshot(records, files, a, primary, target, s) {
        if is_own_snapshot(files, a.new_guid, s) {
            assert(all[all.len() - 1] == s);
        } else {
            let k = choose|k: int|
                0 <= k < records.len() && goes_along(
                    #[trigger] records[k],
                    target,
                    a.old_guid,
                    a.new_guid,
                    primary,
                ) && is_snapshot_of(records[k], s);
            assert(group.contains(records[k]));
            let i = choose|i: int| 0 <= i < group.len() && group[i] == records[k];
            assert(is_snapshot_of(group[i], s));
            let j = choose|j: int| 0 <= j < rest.len() && rest[j] == s;
            assert(all[j] == s);
        }
    }
}

/// The snapshot that a plan takes, where none is asked for, is that of an endpoint
/// of the group or of the target, and none of these was written earlier; there is none
/// only where there is none to take. Where one is asked for, it is that of the endpoint
/// asked for.
pub proof fn law_snapshot_is_the_first_written(
    r: Seq<KeyView>,
    files: FilesView,
    a: Asked,
    plan: PlanView,
    primary: int,
    target: int,
    s: SourceView,
)
    requires
        comes_to(r, files, a, plan),
        is_first_record(
            detect::stale_records(r, files, Seq::empty()),
            primary,
            a.old_guid,
        ),
        is_first_active(matching::active_set(r), target, a.new_guid),
    ensures
        ({
            let records = detect::stale_records(r, files, Seq::empty());
            let p = records[primary];
            let t = matching::active_set(r)[target];
            &&& plan.snapshot_source == Some(s) ==> may_give_snapshot(records, files, a, p, t, s)
            &&& may_give_snapshot(records, files, a, p, t, s) ==> match a.snapshot_from {
                None => plan.snapshot_source matches Some(best) && best.mtime <= s.mtime,
                Some(g) => text::eq_ci(s.guid, g) ==> plan.snapshot_source is Some,
            }
            &&& a.snapshot_from matches Some(g) ==> (plan.snapshot_source matches Some(chosen)
                ==> text::eq_ci(chosen.guid, g))
        }),
{
    let records = detect::stale_records(r, files, Seq::empty());
    let p = records[primary];
    let t = matching::active_set(r)[target];
    lemma_record_with(records, primary, a.old_guid);
    lemma_active_with(matching::active_set(r), target, a.new_guid);
    let group = migrate::group_of(records, t, a.old_guid, a.new_guid, p);
    let list = migrate::snapshot_choices(group, files, a.new_guid);
    lemma_snapshot_choices(records, files, a, p, t, s);
    match a.snapshot_from {
        None => {
            migrate::law_earliest(list);
            if list.contains(s) {
                let k = choose|k: int| 0 <= k < list.len() && list[k] == s;
                assert(list[k].mtime == s.mtime);
            }
        },
        Some(g) => {
            lemma_source_of(list, g, s);
        },
    }
}

/// A plan is for the endpoint that is asked for, under the name that it has; it
/// repairs the installation there exactly where that is not whole, in the mode of the
/// old record where that tells one.
pub proof fn law_plan_is_for_the_target(
    r: Seq<KeyView>,
    files: FilesView,
    a: Asked,
    plan: PlanView,
    primary: int,
    target: int,
)
    requires
        comes_to(r, files, a, plan),
        is_first_record(
            detect::stale_records(r, files, Seq::empty()),
            primary,
            a.old_guid,
        ),
        is_first_active(matching::active_set(r), target, a.new_guid),
    ensures
        plan.target_guid == a.new_guid,
        plan.target_name == matching::active_set(r)[target].name,
        plan.repaired == !detect::healthy(r, a.new_guid),
        detect::record_mode(
            detect::stale_records(r, files, Seq::empty())[primary].info_values,
        ) matches Some(m) ==> plan.mode == m,
{
    lemma_record_with(detect::stale_records(r, files, Seq::empty()), primary, a.old_guid);
    lemma_active_with(matching::active_set(r), target, a.new_guid);
}

} // verus!
