//! Moving the installation of an old endpoint to the one that took its place.

use vstd::prelude::*;
use crate::error::{ErrorView, VxApoError};
use crate::guid;
use crate::install::device::identity;
use crate::install::device::identity::{
    identity_from_key, identity_from_values, merge_endpoint_history, normalize_device_id,
    read_endpoint_identity, write_identity_values, EndpointIdentity, IdentityView,
};
use crate::install::device::info;
use crate::install::device::info::{detect_mode_for_guid, find_endpoint_path};
use crate::install::device::slots::child;
use crate::install::device::slots::InstallMode;
use crate::install::device::stale;
use crate::install::device::stale::detect;
use crate::install::device::stale::detect::{
    collect_stale_records, config_is_meaningful, infer_mode, is_healthy, validate_guid, RecordView,
    StaleRecord, CHILD_APO_ROOT_REL,
};
use crate::install::device::stale::matching;
use crate::install::device::stale::matching::{active_endpoints, ActiveEndpoint, ActiveView};
use crate::install::device::stale::{
    config_path, snapshot_path, Files, FilesView, MigrationReport, ReportView,
    MIGRATION_BACKUP_DIR,
};
use crate::refusal;
use crate::refusal::{make_until, Refusal, RefusalView};
use crate::registry;
use crate::registry::{
    copy_entries, copy_texts, copy_value, join_path, EntryView, Hkey, KeyView, OpView, RegEntry,
    RegKey, Registry,
};
use crate::text;
use crate::text::{concat2, concat3, eq, eq_ignore_case, trim_text};
use crate::undo::snapshot;

verus! {

// ---------------------------------------------------------------------------
// Sources
// ---------------------------------------------------------------------------
/// A file that can be migrated.
#[derive(Clone, Debug, PartialEq, Eq)]
pub struct FileSource {
    pub guid: String,
    pub path: String,
    pub mtime: u64,
}

/// The contents of a source.
pub struct SourceView {
    pub guid: Seq<char>,
    pub path: Seq<char>,
    pub mtime: u64,
}

impl View for FileSource {
    type V = SourceView;

    open spec fn view(&self) -> SourceView {
        SourceView { guid: self.guid@, path: self.path@, mtime: self.mtime }
    }
}

/// The contents of a list of sources.
pub open spec fn sources(v: Seq<FileSource>) -> Seq<SourceView> {
    v.map_values(|s: FileSource| s@)
}

/// The contents of a source that may be missing.
pub open spec fn opt_source(v: Option<FileSource>) -> Option<SourceView> {
    match v {
        Some(s) => Some(s@),
        None => None,
    }
}

/// The configurations of some records, as sources; a file whose time is unknown
/// is none.
pub open spec fn config_sources(group: Seq<RecordView>) -> Seq<SourceView>
    decreases group.len(),
{
    if group.len() == 0 {
        Seq::empty()
    } else {
        let rest = config_sources(group.drop_last());
        match detect::time_of(group.last().config) {
            Some(mtime) => rest.push(
                SourceView {
                    guid: group.last().guid,
                    path: stale::config_file(group.last().guid),
                    mtime,
                },
            ),
            None => rest,
        }
    }
}

/// The snapshots of some records, as sources.
pub open spec fn snapshot_sources(group: Seq<RecordView>) -> Seq<SourceView>
    decreases group.len(),
{
    if group.len() == 0 {
        Seq::empty()
    } else {
        let rest = snapshot_sources(group.drop_last());
        match detect::time_of(group.last().snapshot) {
            Some(mtime) => rest.push(
                SourceView {
                    guid: group.last().guid,
                    path: stale::snapshot_file(group.last().guid),
                    mtime,
                },
            ),
            None => rest,
        }
    }
}

/// The configurations to choose from: those of the old endpoints, then that of
/// the target where it is more than what an endpoint gets of itself.
pub open spec fn config_choices(
    group: Seq<RecordView>,
    files: FilesView,
    new_guid: Seq<char>,
) -> Seq<SourceView> {
    let own = stale::files_of(files.entries, new_guid).0;
    let rest = config_sources(group);
    match own {
        Some(f) => match f.mtime_ms {
            Some(mtime) => if f.len > 64 {
                rest.push(SourceView { guid: new_guid, path: stale::config_file(new_guid), mtime })
            } else {
                rest
            },
            None => rest,
        },
        None => rest,
    }
}

/// The snapshots to choose from: those of the old endpoints, then that of the
/// target.
pub open spec fn snapshot_choices(
    group: Seq<RecordView>,
    files: FilesView,
    new_guid: Seq<char>,
) -> Seq<SourceView> {
    let own = stale::files_of(files.entries, new_guid).1;
    let rest = snapshot_sources(group);
    match detect::time_of(own) {
        Some(mtime) => rest.push(
            SourceView { guid: new_guid, path: stale::snapshot_file(new_guid), mtime },
        ),
        None => rest,
    }
}

/// The first source of an endpoint.
pub open spec fn source_of(list: Seq<SourceView>, guid: Seq<char>) -> Option<SourceView>
    decreases list.len(),
{
    if list.len() == 0 {
        None
    } else if text::eq_ci(list[0].guid, guid) {
        Some(list[0])
    } else {
        source_of(list.drop_first(), guid)
    }
}

/// The source that was written last; of several, the last in the list.
pub open spec fn latest(list: Seq<SourceView>) -> Option<SourceView>
    decreases list.len(),
{
    if list.len() == 0 {
        None
    } else {
        match latest(list.drop_last()) {
            Some(best) => if list.last().mtime >= best.mtime {
                Some(list.last())
            } else {
                Some(best)
            },
            None => Some(list.last()),
        }
    }
}

/// The source that was written first; of several, the first in the list.
pub open spec fn earliest(list: Seq<SourceView>) -> Option<SourceView>
    decreases list.len(),
{
    if list.len() == 0 {
        None
    } else {
        match earliest(list.drop_last()) {
            Some(best) => if list.last().mtime < best.mtime {
                Some(list.last())
            } else {
                Some(best)
            },
            None => Some(list.last()),
        }
    }
}

/// The configuration to migrate: the one asked for, or the one written last.
pub open spec fn config_choice(
    group: Seq<RecordView>,
    files: FilesView,
    new_guid: Seq<char>,
    forced: Option<Seq<char>>,
) -> Option<SourceView> {
    let list = config_choices(group, files, new_guid);
    match forced {
        Some(guid) => source_of(list, guid),
        None => latest(list),
    }
}

/// The snapshot to migrate: the one asked for, or the one written first.
pub open spec fn snapshot_choice(
    group: Seq<RecordView>,
    files: FilesView,
    new_guid: Seq<char>,
    forced: Option<Seq<char>>,
) -> Option<SourceView> {
    let list = snapshot_choices(group, files, new_guid);
    match forced {
        Some(guid) => source_of(list, guid),
        None => earliest(list),
    }
}

/// The contents of a text that may be missing.
pub open spec fn opt_str(v: Option<&str>) -> Option<Seq<char>> {
    match v {
        Some(s) => Some(s@),
        None => None,
    }
}

fn copy_source(s: &FileSource) -> (r: FileSource)
    ensures
        r@ == s@,
{
    FileSource { guid: s.guid.clone(), path: s.path.clone(), mtime: s.mtime }
}

fn find_source(list: &[FileSource], guid: &str) -> (r: Option<FileSource>)
    ensures
        opt_source(r) == source_of(sources(list@), guid@),
{
    let ghost all = sources(list@);
    let mut i: usize = 0;
    assert(all.skip(0) =~= all);
    while i < list.len()
        invariant
            i <= list.len(),
            all == sources(list@),
            source_of(all, guid@) == source_of(all.skip(i as int), guid@),
        decreases list.len() - i,
    {
        let ghost t = all.skip(i as int);
        assert(t[0] == list@[i as int]@);
        assert(t.drop_first() =~= all.skip(i + 1));
        if eq_ignore_case(list[i].guid.as_str(), guid) {
            return Some(copy_source(&list[i]));
        }
        i += 1;
    }
    None
}

fn find_latest(list: &[FileSource]) -> (r: Option<FileSource>)
    ensures
        opt_source(r) == latest(sources(list@)),
{
    let ghost all = sources(list@);
    let mut best: Option<usize> = None;
    let mut i: usize = 0;
    assert(all.take(0) =~= Seq::empty());
    while i < list.len()
        invariant
            i <= list.len(),
            all == sources(list@),
            best matches Some(b) ==> b < i,
            latest(all.take(i as int)) == (match best {
                Some(b) => Some(all[b as int]),
                None => None,
            }),
        decreases list.len() - i,
    {
        let ghost t = all.take(i + 1);
        assert(t.drop_last() =~= all.take(i as int));
        assert(t.last() == list@[i as int]@);
        match best {
            Some(b) => {
                assert(all[b as int] == list@[b as int]@);
                if list[i].mtime >= list[b].mtime {
                    best = Some(i);
                }
            },
            None => {
                best = Some(i);
            },
        }
        i += 1;
    }
    assert(all.take(i as int) =~= all);
    match best {
        Some(b) => Some(copy_source(&list[b])),
        None => None,
    }
}

fn find_earliest(list: &[FileSource]) -> (r: Option<FileSource>)
    ensures
        opt_source(r) == earliest(sources(list@)),
{
    let ghost all = sources(list@);
    let mut best: Option<usize> = None;
    let mut i: usize = 0;
    assert(all.take(0) =~= Seq::empty());
    while i < list.len()
        invariant
            i <= list.len(),
            all == sources(list@),
            best matches Some(b) ==> b < i,
            earliest(all.take(i as int)) == (match best {
                Some(b) => Some(all[b as int]),
                None => None,
            }),
        decreases list.len() - i,
    {
        let ghost t = all.take(i + 1);
        assert(t.drop_last() =~= all.take(i as int));
        assert(t.last() == list@[i as int]@);
        match best {
            Some(b) => {
                assert(all[b as int] == list@[b as int]@);
                if list[i].mtime < list[b].mtime {
                    best = Some(i);
                }
            },
            None => {
                best = Some(i);
            },
        }
        i += 1;
    }
    assert(all.take(i as int) =~= all);
    match best {
        Some(b) => Some(copy_source(&list[b])),
        None => None,
    }
}

/// The configuration to migrate: the one asked for, or the one written last.
pub fn choose_config_source(
    group: &[StaleRecord],
    files: &Files,
    new_guid: &str,
    forced: Option<&str>,
) -> (r: Option<FileSource>)
    ensures
        opt_source(r) == config_choice(
            detect::record_views(group@),
            files@,
            new_guid@,
            opt_str(forced),
        ),
{
    let mut list: Vec<FileSource> = Vec::new();
    let ghost all = detect::record_views(group@);
    let mut i: usize = 0;
    assert(all.take(0) =~= Seq::empty());
    assert(sources(list@) =~= Seq::empty());
    while i < group.len()
        invariant
            i <= group.len(),
            all == detect::record_views(group@),
            sources(list@) == config_sources(all.take(i as int)),
        decreases group.len() - i,
    {
        let ghost t = all.take(i + 1);
        let ghost before = sources(list@);
        let rec = &group[i];
        assert(t.drop_last() =~= all.take(i as int));
        assert(t.last() == rec@);
        match rec.config {
            Some(f) => match f.mtime_ms {
                Some(mtime) => {
                    let s = FileSource {
                        guid: rec.guid.clone(),
                        path: config_path(rec.guid.as_str()),
                        mtime,
                    };
                    list.push(s);
                    assert(sources(list@) =~= before.push(s@));
                },
                None => {},
            },
            None => {},
        }
        i += 1;
    }
    assert(all.take(i as int) =~= all);
    let ghost before = sources(list@);
    match files.of(new_guid).0 {
        Some(f) => match f.mtime_ms {
            Some(mtime) => if config_is_meaningful(&f) {
                let s = FileSource {
                    guid: new_guid.to_owned(),
                    path: config_path(new_guid),
                    mtime,
                };
                list.push(s);
                assert(sources(list@) =~= before.push(s@));
            },
            None => {},
        },
        None => {},
    }
    match forced {
        Some(guid) => find_source(list.as_slice(), guid),
        None => find_latest(list.as_slice()),
    }
}

/// The snapshot to migrate: the one asked for, or the one written first.
pub fn choose_snapshot_source(
    group: &[StaleRecord],
    files: &Files,
    new_guid: &str,
    forced: Option<&str>,
) -> (r: Option<FileSource>)
    ensures
        opt_source(r) == snapshot_choice(
            detect::record_views(group@),
            files@,
            new_guid@,
            opt_str(forced),
        ),
{
    let mut list: Vec<FileSource> = Vec::new();
    let ghost all = detect::record_views(group@);
    let mut i: usize = 0;
    assert(all.take(0) =~= Seq::empty());
    assert(sources(list@) =~= Seq::empty());
    while i < group.len()
        invariant
            i <= group.len(),
            all == detect::record_views(group@),
            sources(list@) == snapshot_sources(all.take(i as int)),
        decreases group.len() - i,
    {
        let ghost t = all.take(i + 1);
        let ghost before = sources(list@);
        let rec = &group[i];
        assert(t.drop_last() =~= all.take(i as int));
        assert(t.last() == rec@);
        match rec.snapshot {
            Some(f) => match f.mtime_ms {
                Some(mtime) => {
                    let s = FileSource {
                        guid: rec.guid.clone(),
                        path: snapshot_path(rec.guid.as_str()),
                        mtime,
                    };
                    list.push(s);
                    assert(sources(list@) =~= before.push(s@));
                },
                None => {},
            },
            None => {},
        }
        i += 1;
    }
    assert(all.take(i as int) =~= all);
    let ghost before = sources(list@);
    match files.of(new_guid).1 {
        Some(f) => match f.mtime_ms {
            Some(mtime) => {
                let s = FileSource {
                    guid: new_guid.to_owned(),
                    path: snapshot_path(new_guid),
                    mtime,
                };
                list.push(s);
                assert(sources(list@) =~= before.push(s@));
            },
            None => {},
        },
        None => {},
    }
    match forced {
        Some(guid) => find_source(list.as_slice(), guid),
        None => find_earliest(list.as_slice()),
    }
}

/// The chosen configuration is one of those to choose from, and none of them was
/// written later; there is one unless there are none to choose from.
pub proof fn law_latest(list: Seq<SourceView>)
    ensures
        latest(list) is Some == (list.len() > 0),
        latest(list) matches Some(s) ==> list.contains(s) && forall|i: int|
            0 <= i < list.len() ==> (#[trigger] list[i]).mtime <= s.mtime,
    decreases list.len(),
{
    if list.len() > 0 {
        let t = list.drop_last();
        law_latest(t);
        let s = latest(list).unwrap();
        assert(list[list.len() - 1] == list.last());
        match latest(t) {
            Some(b) => {
                let k = choose|k: int| 0 <= k < t.len() && t[k] == b;
                assert(list[k] == b);
            },
            None => {},
        }
        assert forall|i: int| 0 <= i < list.len() implies (#[trigger] list[i]).mtime <= s.mtime by {
            if i < t.len() {
                assert(t[i] == list[i]);
            }
        }
    }
}

/// The chosen snapshot is one of those to choose from, and none of them was
/// written earlier; there is one unless there are none to choose from.
pub proof fn law_earliest(list: Seq<SourceView>)
    ensures
        earliest(list) is Some == (list.len() > 0),
        earliest(list) matches Some(s) ==> list.contains(s) && forall|i: int|
            0 <= i < list.len() ==> (#[trigger] list[i]).mtime >= s.mtime,
    decreases list.len(),
{
    if list.len() > 0 {
        let t = list.drop_last();
        law_earliest(t);
        let s = earliest(list).unwrap();
        assert(list[list.len() - 1] == list.last());
        match earliest(t) {
            Some(b) => {
                let k = choose|k: int| 0 <= k < t.len() && t[k] == b;
                assert(list[k] == b);
            },
            None => {},
        }
        assert forall|i: int| 0 <= i < list.len() implies (#[trigger] list[i]).mtime >= s.mtime by {
            if i < t.len() {
                assert(t[i] == list[i]);
            }
        }
    }
}

// ---------------------------------------------------------------------------
// The plan
// ---------------------------------------------------------------------------
/// What a migration is going to do.
#[derive(Clone, Debug, PartialEq, Eq)]
pub struct MigrationPlan {
    pub target_guid: String,
    pub target_name: String,
    /// The old endpoints of the device, whose records are merged and removed.
    pub group: Vec<String>,
    pub config_source: Option<FileSource>,
    pub snapshot_source: Option<FileSource>,
    /// Whether the installation on the target is to be repaired, and how.
    pub repaired: bool,
    pub mode: InstallMode,
}

/// The contents of a plan.
pub struct PlanView {
    pub target_guid: Seq<char>,
    pub target_name: Seq<char>,
    pub group: Seq<Seq<char>>,
    pub config_source: Option<SourceView>,
    pub snapshot_source: Option<SourceView>,
    pub repaired: bool,
    pub mode: InstallMode,
}

impl View for MigrationPlan {
    type V = PlanView;

    open spec fn view(&self) -> PlanView {
        PlanView {
            target_guid: self.target_guid@,
            target_name: self.target_name@,
            group: text::texts(self.group@),
            config_source: opt_source(self.config_source),
            snapshot_source: opt_source(self.snapshot_source),
            repaired: self.repaired,
            mode: self.mode,
        }
    }
}

/// The first of some active endpoints with a GUID.
pub open spec fn active_with(list: Seq<ActiveView>, guid: Seq<char>) -> Option<ActiveView>
    decreases list.len(),
{
    if list.len() == 0 {
        None
    } else if text::eq_ci(list[0].guid, guid) {
        Some(list[0])
    } else {
        active_with(list.drop_first(), guid)
    }
}

/// The first of some records with a GUID.
pub open spec fn record_with(list: Seq<RecordView>, guid: Seq<char>) -> Option<RecordView>
    decreases list.len(),
{
    if list.len() == 0 {
        None
    } else if text::eq_ci(list[0].guid, guid) {
        Some(list[0])
    } else {
        record_with(list.drop_first(), guid)
    }
}

/// Whether a GUID is among some, in whatever case.
pub open spec fn names_guid(list: Seq<Seq<char>>, guid: Seq<char>) -> bool {
    exists|i: int| 0 <= i < list.len() && text::eq_ci(#[trigger] list[i], guid)
}

/// Whether a record belongs to the device that is migrated: it is that of the old
/// endpoint, or of another endpoint of the same device; never that of the target.
pub open spec fn in_group(
    rec: RecordView,
    target: ActiveView,
    old_guid: Seq<char>,
    new_guid: Seq<char>,
    primary: RecordView,
) -> bool {
    let id = identity::device_id(primary.device_instance_id);
    let stored = identity::values_identity(primary.info_values);
    !text::eq_ci(rec.guid, new_guid) && (text::eq_ci(rec.guid, old_guid) || (id.len() > 0
        && identity::device_id(rec.device_instance_id) == id) || (stored.instance_id.len() > 0
        && identity::values_identity(rec.info_values).instance_id == stored.instance_id)
        || names_guid(target.identity.endpoint_history, rec.guid))
}

/// The records that belong to the device that is migrated.
pub open spec fn group_of(
    list: Seq<RecordView>,
    target: ActiveView,
    old_guid: Seq<char>,
    new_guid: Seq<char>,
    primary: RecordView,
) -> Seq<RecordView>
    decreases list.len(),
{
    if list.len() == 0 {
        Seq::empty()
    } else {
        let rest = group_of(list.drop_last(), target, old_guid, new_guid, primary);
        if in_group(list.last(), target, old_guid, new_guid, primary) {
            rest.push(list.last())
        } else {
            rest
        }
    }
}

/// Whether the old endpoint and the target are known to be of different devices.
pub open spec fn other_device(primary: RecordView, target: ActiveView) -> bool {
    let id = identity::device_id(primary.device_instance_id);
    id.len() > 0 && target.identity.instance_id.len() > 0 && id != target.identity.instance_id
}

/// What is said when the old endpoint and the target are of different devices.
pub open spec fn other_device_text(old_guid: Seq<char>, new_guid: Seq<char>) -> Seq<char> {
    "旧 GUID "@ + old_guid + " 与目标端点 "@ + new_guid + " 不是同一设备，拒绝迁移"@
}

/// The plan of a migration, or why there is none.
pub open spec fn planned(
    r: Seq<KeyView>,
    files: FilesView,
    old_guid: Seq<char>,
    new_guid: Seq<char>,
    config_from: Option<Seq<char>>,
    snapshot_from: Option<Seq<char>>,
    is_windows_8_1_or_newer: bool,
) -> Result<PlanView, ErrorView> {
    let records = detect::stale_records(r, files, Seq::empty());
    if !guid::is_guid_text(old_guid) {
        Err(ErrorView::Internal("无效的端点 GUID："@ + old_guid))
    } else if !guid::is_guid_text(new_guid) {
        Err(ErrorView::Internal("无效的端点 GUID："@ + new_guid))
    } else if text::eq_ci(old_guid, new_guid) {
        Err(ErrorView::Internal("旧 GUID 与目标 GUID 相同，无需迁移"@))
    } else if info::endpoint_path(r, new_guid) is None {
        Err(ErrorView::DeviceNotFound(new_guid))
    } else {
        match active_with(matching::active_set(r), new_guid) {
            None => Err(ErrorView::DeviceNotFound(new_guid)),
            Some(target) => match record_with(records, old_guid) {
                None => Err(ErrorView::Internal("未找到旧安装记录："@ + old_guid)),
                Some(primary) => if other_device(primary, target) {
                    Err(ErrorView::Internal(other_device_text(old_guid, new_guid)))
                } else {
                    let group = group_of(records, target, old_guid, new_guid, primary);
                    Ok(
                        PlanView {
                            target_guid: new_guid,
                            target_name: target.name,
                            group: detect::record_guids(group),
                            config_source: config_choice(group, files, new_guid, config_from),
                            snapshot_source: snapshot_choice(
                                group,
                                files,
                                new_guid,
                                snapshot_from,
                            ),
                            repaired: !detect::healthy(r, new_guid),
                            mode: match detect::record_mode(primary.info_values) {
                                Some(m) => m,
                                None => info::mode_for_guid(r, new_guid, is_windows_8_1_or_newer),
                            },
                        },
                    )
                },
            },
        }
    }
}

fn find_active(list: &[ActiveEndpoint], guid: &str) -> (r: Option<usize>)
    ensures
        r matches Some(i) ==> i < list@.len(),
        active_with(matching::actives(list@), guid@) == (match r {
            Some(i) => Some(list@[i as int]@),
            None => None,
        }),
{
    let ghost all = matching::actives(list@);
    let mut i: usize = 0;
    assert(all.skip(0) =~= all);
    while i < list.len()
        invariant
            i <= list.len(),
            all == matching::actives(list@),
            active_with(all, guid@) == active_with(all.skip(i as int), guid@),
        decreases list.len() - i,
    {
        let ghost t = all.skip(i as int);
        assert(t[0] == list@[i as int]@);
        assert(t.drop_first() =~= all.skip(i + 1));
        if eq_ignore_case(list[i].guid.as_str(), guid) {
            return Some(i);
        }
        i += 1;
    }
    None
}

fn find_record(list: &[StaleRecord], guid: &str) -> (r: Option<usize>)
    ensures
        r matches Some(i) ==> i < list@.len(),
        record_with(detect::record_views(list@), guid@) == (match r {
            Some(i) => Some(list@[i as int]@),
            None => None,
        }),
{
    let ghost all = detect::record_views(list@);
    let mut i: usize = 0;
    assert(all.skip(0) =~= all);
    while i < list.len()
        invariant
            i <= list.len(),
            all == detect::record_views(list@),
            record_with(all, guid@) == record_with(all.skip(i as int), guid@),
        decreases list.len() - i,
    {
        let ghost t = all.skip(i as int);
        assert(t[0] == list@[i as int]@);
        assert(t.drop_first() =~= all.skip(i + 1));
        if eq_ignore_case(list[i].guid.as_str(), guid) {
            return Some(i);
        }
        i += 1;
    }
    None
}

fn is_named(list: &[String], guid: &str) -> (r: bool)
    ensures
        r == names_guid(text::texts(list@), guid@),
{
    let mut i: usize = 0;
    while i < list.len()
        invariant
            i <= list.len(),
            forall|j: int|
                0 <= j < i ==> !text::eq_ci(#[trigger] text::texts(list@)[j], guid@),
        decreases list.len() - i,
    {
        assert(text::texts(list@)[i as int] == list@[i as int]@);
        if eq_ignore_case(list[i].as_str(), guid) {
            return true;
        }
        i += 1;
    }
    false
}

fn belongs(
    rec: &StaleRecord,
    target: &ActiveEndpoint,
    old_guid: &str,
    new_guid: &str,
    primary_identity: &str,
    primary_stored: &EndpointIdentity,
    primary: Ghost<RecordView>,
) -> (r: bool)
    requires
        primary_identity@ == identity::device_id(primary@.device_instance_id),
        primary_stored@ == identity::values_identity(primary@.info_values),
    ensures
        r == in_group(rec@, target@, old_guid@, new_guid@, primary@),
{
    if eq_ignore_case(rec.guid.as_str(), new_guid) {
        return false;
    }
    if eq_ignore_case(rec.guid.as_str(), old_guid) {
        return true;
    }
    if !primary_identity.is_empty() {
        let id = normalize_device_id(rec.device_instance_id.as_str());
        if eq(id.as_str(), primary_identity) {
            return true;
        }
    }
    let stored = identity_from_values(rec.info_values.as_slice());
    if !primary_stored.instance_id.as_str().is_empty() && eq(
        stored.instance_id.as_str(),
        primary_stored.instance_id.as_str(),
    ) {
        return true;
    }
    is_named(target.identity.endpoint_history.as_slice(), rec.guid.as_str())
}

fn copy_record(rec: &StaleRecord) -> (r: StaleRecord)
    ensures
        r@ == rec@,
{
    StaleRecord {
        guid: rec.guid.clone(),
        device_instance_id: rec.device_instance_id.clone(),
        config: rec.config,
        snapshot: rec.snapshot,
        info_values: copy_entries(rec.info_values.as_slice()),
    }
}

fn collect_group(
    records: &[StaleRecord],
    target: &ActiveEndpoint,
    old_guid: &str,
    new_guid: &str,
    primary: &StaleRecord,
) -> (r: Vec<StaleRecord>)
    ensures
        detect::record_views(r@) == group_of(
            detect::record_views(records@),
            target@,
            old_guid@,
            new_guid@,
            primary@,
        ),
{
    let primary_identity = normalize_device_id(primary.device_instance_id.as_str());
    let primary_stored = identity_from_values(primary.info_values.as_slice());
    let mut out: Vec<StaleRecord> = Vec::new();
    let ghost all = detect::record_views(records@);
    let mut i: usize = 0;
    assert(all.take(0) =~= Seq::empty());
    assert(detect::record_views(out@) =~= Seq::empty());
    while i < records.len()
        invariant
            i <= records.len(),
            all == detect::record_views(records@),
            primary_identity@ == identity::device_id(primary@.device_instance_id),
            primary_stored@ == identity::values_identity(primary@.info_values),
            detect::record_views(out@) == group_of(
                all.take(i as int),
                target@,
                old_guid@,
                new_guid@,
                primary@,
            ),
        decreases records.len() - i,
    {
        let ghost t = all.take(i + 1);
        let ghost before = detect::record_views(out@);
        let rec = &records[i];
        assert(t.drop_last() =~= all.take(i as int));
        assert(t.last() == rec@);
        if belongs(
            rec,
            target,
            old_guid,
            new_guid,
            primary_identity.as_str(),
            &primary_stored,
            Ghost(primary@),
        ) {
            let c = copy_record(rec);
            out.push(c);
            assert(detect::record_views(out@) =~= before.push(c@));
        }
        i += 1;
    }
    assert(all.take(i as int) =~= all);
    out
}

fn guids_of(group: &[StaleRecord]) -> (r: Vec<String>)
    ensures
        text::texts(r@) == detect::record_guids(detect::record_views(group@)),
{
    let mut out: Vec<String> = Vec::new();
    let mut i: usize = 0;
    while i < group.len()
        invariant
            i <= group.len(),
            out@.len() == i,
            forall|j: int| 0 <= j < i ==> (#[trigger] out@[j])@ == group@[j].guid@,
        decreases group.len() - i,
    {
        out.push(group[i].guid.clone());
        i += 1;
    }
    assert(text::texts(out@) =~= detect::record_guids(detect::record_views(group@)));
    out
}

/// Plans the migration of an old endpoint's installation to the endpoint that took
/// its place. The configuration and the snapshot come from the endpoints asked
/// for; otherwise the configuration is the one written last and the snapshot the
/// one written first, among those of the old endpoints of the device and of the
/// target.
pub fn migrate_install(
    registry: &Registry,
    files: &Files,
    old_guid: &str,
    new_guid: &str,
    config_from: Option<&str>,
    snapshot_from: Option<&str>,
    is_windows_8_1_or_newer: bool,
) -> (r: Result<MigrationPlan, VxApoError>)
    ensures
        match planned(
            registry@,
            files@,
            old_guid@,
            new_guid@,
            opt_str(config_from),
            opt_str(snapshot_from),
            is_windows_8_1_or_newer,
        ) {
            Ok(plan) => r matches Ok(p) && p@ == plan,
            Err(error) => r matches Err(e) && e@ == error,
        },
{
    match validate_guid(old_guid) {
        Ok(_) => {},
        Err(e) => {
            return Err(e);
        },
    }
    match validate_guid(new_guid) {
        Ok(_) => {},
        Err(e) => {
            return Err(e);
        },
    }
    if eq_ignore_case(old_guid, new_guid) {
        return Err(VxApoError::internal("旧 GUID 与目标 GUID 相同，无需迁移"));
    }
    match find_endpoint_path(registry, new_guid) {
        Ok(_) => {},
        Err(e) => {
            return Err(e);
        },
    }
    let active = active_endpoints(registry);
    let target = match find_active(active.as_slice(), new_guid) {
        Some(i) => &active[i],
        None => {
            return Err(VxApoError::device_not_found(new_guid));
        },
    };
    let nobody: Vec<String> = Vec::new();
    assert(text::texts(nobody@) =~= Seq::empty());
    let records = collect_stale_records(registry, files, nobody.as_slice());
    let primary = match find_record(records.as_slice(), old_guid) {
        Some(i) => &records[i],
        None => {
            let m = concat2("未找到旧安装记录：", old_guid);
            return Err(VxApoError::internal(m.as_str()));
        },
    };
    let primary_identity = normalize_device_id(primary.device_instance_id.as_str());
    if !primary_identity.as_str().is_empty() && !target.identity.instance_id.as_str().is_empty()
        && !eq(primary_identity.as_str(), target.identity.instance_id.as_str()) {
        let head = concat3("旧 GUID ", old_guid, " 与目标端点 ");
        let m = concat3(head.as_str(), new_guid, " 不是同一设备，拒绝迁移");
        return Err(VxApoError::internal(m.as_str()));
    }
    let group = collect_group(records.as_slice(), target, old_guid, new_guid, primary);
    let config_source = choose_config_source(group.as_slice(), files, new_guid, config_from);
    let snapshot_source = choose_snapshot_source(group.as_slice(), files, new_guid, snapshot_from);
    let mode = match infer_mode(primary.info_values.as_slice()) {
        Some(m) => m,
        None => detect_mode_for_guid(registry, new_guid, is_windows_8_1_or_newer),
    };
    Ok(
        MigrationPlan {
            target_guid: new_guid.to_owned(),
            target_name: target.name.clone(),
            group: guids_of(group.as_slice()),
            config_source,
            snapshot_source,
            repaired: !is_healthy(registry, new_guid),
            mode,
        },
    )
}

// ---------------------------------------------------------------------------
// Files
// ---------------------------------------------------------------------------
/// Something to do with a file.
#[derive(Clone, Debug, PartialEq, Eq)]
pub enum FileStep {
    /// Keep a copy of a file, where it is there, in a directory.
    Archive { file: String, dir: String },
    /// Put a copy of a file in another's place.
    Replace { from: String, to: String },
}

/// The contents of a file step.
pub enum FileStepView {
    Archive { file: Seq<char>, dir: Seq<char> },
    Replace { from: Seq<char>, to: Seq<char> },
}

impl View for FileStep {
    type V = FileStepView;

    open spec fn view(&self) -> FileStepView {
        match self {
            FileStep::Archive { file, dir } => FileStepView::Archive { file: file@, dir: dir@ },
            FileStep::Replace { from, to } => FileStepView::Replace { from: from@, to: to@ },
        }
    }
}

/// The contents of a list of file steps.
pub open spec fn steps(v: Seq<FileStep>) -> Seq<FileStepView> {
    v.map_values(|s: FileStep| s@)
}

/// Where the files of a target are kept that a migration replaces.
pub open spec fn target_archive(guid: Seq<char>) -> Seq<char> {
    MIGRATION_BACKUP_DIR@ + "\\"@ + guid + "\\target"@
}

/// Whether a source is of another endpoint than the target.
pub open spec fn moves(source: Option<SourceView>, target_guid: Seq<char>) -> bool {
    source matches Some(s) && !text::eq_ci(s.guid, target_guid)
}

/// The steps that put one source in the place of the target's file.
pub open spec fn replace_steps(
    source: Option<SourceView>,
    target_guid: Seq<char>,
    file: Seq<char>,
) -> Seq<FileStepView> {
    match source {
        Some(s) => if moves(source, target_guid) {
            seq![
                FileStepView::Archive { file, dir: target_archive(target_guid) },
                FileStepView::Replace { from: s.path, to: file },
            ]
        } else {
            Seq::empty()
        },
        None => Seq::empty(),
    }
}

fn push_steps(out: &mut Vec<FileStep>, source: &Option<FileSource>, target_guid: &str, file: String)
    ensures
        steps(final(out)@) == steps(old(out)@) + replace_steps(
            opt_source(*source),
            target_guid@,
            file@,
        ),
{
    let ghost before = steps(out@);
    match source {
        Some(s) => if !eq_ignore_case(s.guid.as_str(), target_guid) {
            let dir = concat3(MIGRATION_BACKUP_DIR, "\\", target_guid);
            let dir = concat2(dir.as_str(), "\\target");
            out.push(FileStep::Archive { file: file.clone(), dir });
            out.push(FileStep::Replace { from: s.path.clone(), to: file });
        },
        None => {},
    }
    assert(steps(out@) =~= before + replace_steps(opt_source(*source), target_guid@, file@));
}

impl MigrationPlan {
    /// The steps that migrate the files: what the target has is kept, and the
    /// sources take its place.
    pub fn file_steps(&self) -> (r: Vec<FileStep>)
        ensures
            steps(r@) == replace_steps(
                self@.config_source,
                self@.target_guid,
                stale::config_file(self@.target_guid),
            ) + replace_steps(
                self@.snapshot_source,
                self@.target_guid,
                stale::snapshot_file(self@.target_guid),
            ),
    {
        let mut out: Vec<FileStep> = Vec::new();
        assert(steps(out@) =~= Seq::empty());
        let guid = self.target_guid.as_str();
        push_steps(&mut out, &self.config_source, guid, config_path(guid));
        push_steps(&mut out, &self.snapshot_source, guid, snapshot_path(guid));
        assert(steps(out@) =~= replace_steps(
            self@.config_source,
            self@.target_guid,
            stale::config_file(self@.target_guid),
        ) + replace_steps(
            self@.snapshot_source,
            self@.target_guid,
            stale::snapshot_file(self@.target_guid),
        ));
        out
    }
}

/// The code of an operating-system error, and whether it is one of permission.
#[derive(Clone, Copy, Debug, PartialEq, Eq, Structural)]
pub struct FileError {
    pub code: Option<i32>,
    pub permission_denied: bool,
}

/// Whether an error may go away of itself: access denied, or a violation of
/// sharing or of a lock.
pub open spec fn transient(e: FileError) -> bool {
    match e.code {
        Some(c) => c == 5 || c == 32 || c == 33 || e.permission_denied,
        None => e.permission_denied,
    }
}

/// Whether an error may go away of itself.
pub fn is_transient_sharing_error(e: &FileError) -> (r: bool)
    ensures
        r == transient(*e),
{
    match e.code {
        Some(5) => true,
        Some(32) => true,
        Some(33) => true,
        _ => e.permission_denied,
    }
}

/// How often a file is put in another's place before giving up.
pub const RENAME_ATTEMPTS: u32 = 5;

/// How long to wait between two attempts, in milliseconds.
pub const RENAME_BACKOFF_MS: u64 = 50;

/// What to do after an attempt.
#[derive(Clone, Copy, Debug, PartialEq, Eq, Structural)]
pub enum RenameStep {
    /// The file is in place.
    Done,
    /// Wait, and try again.
    Retry,
    /// Report the error.
    Fail,
}

/// What to do after so many attempts, given the error of the last one: only what
/// may go away of itself is tried again, and not more often than allowed.
pub fn rename_with_retry(attempts_made: u32, error: Option<FileError>) -> (r: RenameStep)
    ensures
        r == (match error {
            None => RenameStep::Done,
            Some(e) => if transient(e) && attempts_made < RENAME_ATTEMPTS {
                RenameStep::Retry
            } else {
                RenameStep::Fail
            },
        }),
{
    match error {
        None => RenameStep::Done,
        Some(e) => if is_transient_sharing_error(&e) && attempts_made < RENAME_ATTEMPTS {
            RenameStep::Retry
        } else {
            RenameStep::Fail
        },
    }
}

// ---------------------------------------------------------------------------
// What came of the writes
// ---------------------------------------------------------------------------
/// What came of the writes of a migration. Each list goes by the old endpoints, in
/// their order; where it is short, nothing was refused.
#[derive(Clone, Debug, PartialEq, Eq)]
pub struct MigrationOutcomes {
    /// Why the record of the target could not be opened.
    pub target: Option<String>,
    /// Which write refused the merging of an old record.
    pub merges: Vec<Option<Refusal>>,
    /// Which write refused the entering of what is known of the device.
    pub identity: Option<Refusal>,
    /// Why the files of an old endpoint could not be archived.
    pub archives: Vec<Option<String>>,
    /// Why an old record could not be deleted.
    pub deletions: Vec<Option<String>>,
}

/// The contents of what came of the writes.
pub struct OutcomesView {
    pub target: Option<Seq<char>>,
    pub merges: Seq<Option<RefusalView>>,
    pub identity: Option<RefusalView>,
    pub archives: Seq<Option<Seq<char>>>,
    pub deletions: Seq<Option<Seq<char>>>,
}

impl View for MigrationOutcomes {
    type V = OutcomesView;

    open spec fn view(&self) -> OutcomesView {
        OutcomesView {
            target: stale::opt_text(self.target),
            merges: self.merges@.map_values(|m: Option<Refusal>| refusal::opt_refusal(m)),
            identity: refusal::opt_refusal(self.identity),
            archives: self.archives@.map_values(|a: Option<String>| stale::opt_text(a)),
            deletions: self.deletions@.map_values(|d: Option<String>| stale::opt_text(d)),
        }
    }
}

impl MigrationOutcomes {
    /// No write was refused.
    pub fn granted() -> (r: MigrationOutcomes)
        ensures
            r@ == granted(),
    {
        let r = MigrationOutcomes {
            target: None,
            merges: Vec::new(),
            identity: None,
            archives: Vec::new(),
            deletions: Vec::new(),
        };
        assert(r@.merges =~= Seq::empty());
        assert(r@.archives =~= Seq::empty());
        assert(r@.deletions =~= Seq::empty());
        r
    }
}

/// No write was refused.
pub open spec fn granted() -> OutcomesView {
    OutcomesView {
        target: None,
        merges: Seq::empty(),
        identity: None,
        archives: Seq::empty(),
        deletions: Seq::empty(),
    }
}

/// Which write refused the merging of an old record.
pub open spec fn merge_refused(list: Seq<Option<RefusalView>>, i: int) -> Option<RefusalView> {
    if 0 <= i < list.len() {
        list[i]
    } else {
        None
    }
}

/// Why something was refused of an old endpoint.
pub open spec fn refused_of(list: Seq<Option<Seq<char>>>, i: int) -> Option<Seq<char>> {
    if 0 <= i < list.len() {
        list[i]
    } else {
        None
    }
}

/// A note, where something was refused.
pub open spec fn note(head: Seq<char>, guid: Seq<char>, tail: Seq<char>, error: Option<Seq<char>>) -> Seq<
    Seq<char>,
> {
    match error {
        Some(e) => seq![head + guid + tail + e],
        None => Seq::empty(),
    }
}

/// The notes on the last `n` of the old records, in the order in which they are
/// merged: from the last to the first.
pub open spec fn merge_notes(group: Seq<Seq<char>>, list: Seq<Option<RefusalView>>, n: nat) -> Seq<
    Seq<char>,
>
    decreases n,
{
    if n == 0 {
        Seq::empty()
    } else {
        let i = group.len() - n;
        merge_notes(group, list, (n - 1) as nat) + note(
            "合并旧记录 "@,
            group[i],
            " 失败："@,
            match merge_refused(list, i) {
                Some(f) => Some(f.error),
                None => None,
            },
        )
    }
}

/// The notes on what was to be removed of the first `n` of the old endpoints.
pub open spec fn removal_notes(
    group: Seq<Seq<char>>,
    archives: Seq<Option<Seq<char>>>,
    deletions: Seq<Option<Seq<char>>>,
    n: nat,
) -> Seq<Seq<char>>
    decreases n,
{
    if n == 0 {
        Seq::empty()
    } else {
        let i = n - 1;
        removal_notes(group, archives, deletions, i as nat) + note(
            "归档旧 GUID "@,
            group[i],
            " 失败："@,
            refused_of(archives, i),
        ) + note("删除旧信息区 "@, group[i], " 失败："@, refused_of(deletions, i))
    }
}

/// What is noted of a migration: each old record that could not be merged, what is
/// known of the device where it could not be entered, and then, of each old
/// endpoint, files that could not be archived and the record that could not be
/// deleted.
pub open spec fn noted(group: Seq<Seq<char>>, outcomes: OutcomesView) -> Seq<Seq<char>> {
    merge_notes(group, outcomes.merges, group.len()) + note(
        "写入设备身份失败："@,
        Seq::empty(),
        Seq::empty(),
        match outcomes.identity {
            Some(f) => Some(f.error),
            None => None,
        },
    ) + removal_notes(group, outcomes.archives, outcomes.deletions, group.len())
}

/// What is said where the record of the target could not be opened.
pub open spec fn target_text(error: Seq<char>) -> Seq<char> {
    "创建/打开目标信息区失败："@ + error
}

fn push_note(out: &mut Vec<String>, head: &str, guid: &str, tail: &str, error: Option<&String>)
    ensures
        text::texts(final(out)@) == text::texts(old(out)@) + note(
            head@,
            guid@,
            tail@,
            match error {
                Some(e) => Some(e@),
                None => None,
            },
        ),
{
    let ghost before = text::texts(out@);
    match error {
        Some(e) => {
            let what = concat3(head, guid, tail);
            out.push(concat2(what.as_str(), e.as_str()));
            assert(text::texts(out@) =~= before + seq![head@ + guid@ + tail@ + e@]);
        },
        None => {
            assert(before + Seq::<Seq<char>>::empty() =~= before);
        },
    }
}

fn error_at(list: &Vec<Option<String>>, i: usize) -> (r: Option<&String>)
    ensures
        refused_of(list@.map_values(|d: Option<String>| stale::opt_text(d)), i as int) == (match r {
            Some(e) => Some(e@),
            None => None,
        }),
{
    if i < list.len() {
        match &list[i] {
            Some(e) => Some(e),
            None => None,
        }
    } else {
        None
    }
}

fn refusal_at(list: &Vec<Option<Refusal>>, i: usize) -> (r: Option<&Refusal>)
    ensures
        merge_refused(
            list@.map_values(|m: Option<Refusal>| refusal::opt_refusal(m)),
            i as int,
        ) == (match r {
            Some(f) => Some(f@),
            None => None,
        }),
{
    if i < list.len() {
        match &list[i] {
            Some(f) => Some(f),
            None => None,
        }
    } else {
        None
    }
}

/// What is noted of a migration of some old endpoints.
pub fn migration_warnings(group: &[String], outcomes: &MigrationOutcomes) -> (r: Vec<String>)
    ensures
        text::texts(r@) == noted(text::texts(group@), outcomes@),
{
    let ghost all = text::texts(group@);
    let mut out: Vec<String> = Vec::new();
    let mut k: usize = 0;
    assert(text::texts(out@) =~= Seq::empty());
    while k < group.len()
        invariant
            k <= group.len(),
            all == text::texts(group@),
            text::texts(out@) == merge_notes(all, outcomes@.merges, k as nat),
        decreases group.len() - k,
    {
        let i = group.len() - 1 - k;
        assert(all[i as int] == group@[i as int]@);
        let error = match refusal_at(&outcomes.merges, i) {
            Some(f) => Some(&f.error),
            None => None,
        };
        push_note(&mut out, "合并旧记录 ", group[i].as_str(), " 失败：", error);
        k += 1;
    }
    let ghost merges = merge_notes(all, outcomes@.merges, all.len());
    let error = match &outcomes.identity {
        Some(f) => Some(&f.error),
        None => None,
    };
    proof {
        reveal_strlit("");
        assert(""@ =~= Seq::<char>::empty());
    }
    push_note(&mut out, "写入设备身份失败：", "", "", error);
    let ghost head = text::texts(out@);
    let mut i: usize = 0;
    assert(head + removal_notes(all, outcomes@.archives, outcomes@.deletions, 0) =~= head);
    while i < group.len()
        invariant
            i <= group.len(),
            all == text::texts(group@),
            text::texts(out@) == head + removal_notes(
                all,
                outcomes@.archives,
                outcomes@.deletions,
                i as nat,
            ),
        decreases group.len() - i,
    {
        let ghost before = removal_notes(all, outcomes@.archives, outcomes@.deletions, i as nat);
        assert(all[i as int] == group@[i as int]@);
        push_note(
            &mut out,
            "归档旧 GUID ",
            group[i].as_str(),
            " 失败：",
            error_at(&outcomes.archives, i),
        );
        push_note(
            &mut out,
            "删除旧信息区 ",
            group[i].as_str(),
            " 失败：",
            error_at(&outcomes.deletions, i),
        );
        i += 1;
        assert(text::texts(out@) =~= head + removal_notes(
            all,
            outcomes@.archives,
            outcomes@.deletions,
            i as nat,
        ));
    }
    out
}

// ---------------------------------------------------------------------------
// Records
// ---------------------------------------------------------------------------
/// The change that sets a value of a record.
pub open spec fn entry_op(dst: Seq<char>, e: EntryView) -> OpView {
    OpView::SetValue { root: Hkey::LocalMachine, path: dst, name: e.name, value: e.value }
}

/// The changes that copy values into a record: all of them, or those that it does
/// not have.
pub open spec fn copy_ops(
    r: Seq<KeyView>,
    dst: Seq<char>,
    values: Seq<EntryView>,
    overwrite: bool,
) -> Seq<OpView>
    decreases values.len(),
{
    if values.len() == 0 {
        Seq::empty()
    } else {
        let before = copy_ops(r, dst, values.drop_last(), overwrite);
        let e = values.last();
        if overwrite || registry::value_at(
            registry::apply_all(r, before),
            Hkey::LocalMachine,
            dst,
            e.name,
        ) is None {
            before.push(entry_op(dst, e))
        } else {
            before
        }
    }
}

/// Copies values into a record: all of them, or those that it does not have.
pub fn copy_values(registry: &mut Registry, values: &[RegEntry], dst: &str, overwrite: bool)
    ensures
        registry::advanced(
            *old(registry),
            *final(registry),
            copy_ops(old(registry)@, dst@, registry::entries(values@), overwrite),
        ),
{
    let ghost r0 = *registry;
    let ghost all = registry::entries(values@);
    let mut i: usize = 0;
    proof {
        registry::lemma_advanced_refl(r0);
        assert(all.take(0) =~= Seq::empty());
    }
    while i < values.len()
        invariant
            i <= values.len(),
            all == registry::entries(values@),
            registry::advanced(
                r0,
                *registry,
                copy_ops(r0@, dst@, all.take(i as int), overwrite),
            ),
        decreases values.len() - i,
    {
        let ghost t = all.take(i + 1);
        let ghost done = copy_ops(r0@, dst@, all.take(i as int), overwrite);
        let ghost rb = *registry;
        let e = &values[i];
        assert(t.drop_last() =~= all.take(i as int));
        assert(t.last() == e@);
        if overwrite || registry.get(Hkey::LocalMachine, dst, e.name.as_str()).is_none() {
            registry.set_value(
                Hkey::LocalMachine,
                dst,
                e.name.as_str(),
                copy_value(&e.value),
            );
            proof {
                registry::lemma_advanced_trans(
                    r0,
                    rb,
                    *registry,
                    done,
                    seq![entry_op(dst@, e@)],
                );
                assert(done + seq![entry_op(dst@, e@)] =~= done.push(entry_op(dst@, e@)));
            }
        }
        i += 1;
    }
    assert(all.take(i as int) =~= all);
}

/// The changes that merge the record of an endpoint into another, up to the one
/// that was refused.
pub open spec fn merge_one_ops(
    r: Seq<KeyView>,
    dst: Seq<char>,
    guid: Seq<char>,
    overwrite: bool,
    refused: Option<RefusalView>,
) -> Seq<OpView> {
    refusal::made(
        copy_ops(r, dst, detect::info_values(r, guid), overwrite),
        refusal::reach(refused),
    )
}

/// The changes that merge the records of the last `n` of some endpoints into
/// another, from the last to the first.
pub open spec fn merge_ops(
    r: Seq<KeyView>,
    dst: Seq<char>,
    group: Seq<Seq<char>>,
    overwrite: bool,
    merges: Seq<Option<RefusalView>>,
    n: nat,
) -> Seq<OpView>
    decreases n,
{
    if n == 0 {
        Seq::empty()
    } else {
        let i = group.len() - n;
        let before = merge_ops(r, dst, group, overwrite, merges, (n - 1) as nat);
        let r1 = registry::apply_all(r, before);
        before + merge_one_ops(r1, dst, group[i], overwrite, merge_refused(merges, i))
    }
}

/// Merges the record of an endpoint into another, up to the write that was refused.
fn merge_one(
    registry: &mut Registry,
    guid: &str,
    dst: &str,
    overwrite: bool,
    refused: Option<&Refusal>,
)
    ensures
        registry::advanced(
            *old(registry),
            *final(registry),
            merge_one_ops(
                old(registry)@,
                dst@,
                guid@,
                overwrite,
                match refused {
                    Some(f) => Some(f@),
                    None => None,
                },
            ),
        ),
{
    let path = join_path(CHILD_APO_ROOT_REL, guid);
    let values = match registry.values(Hkey::LocalMachine, path.as_str()) {
        Some(v) => copy_entries(v),
        None => Vec::new(),
    };
    assert(registry::entries(values@) =~= detect::info_values(registry@, guid@));
    match refused {
        None => {
            copy_values(registry, values.as_slice(), dst, overwrite);
        },
        Some(f) => {
            let mut trial = snapshot(registry);
            copy_values(&mut trial, values.as_slice(), dst, overwrite);
            assert(trial.log() =~= copy_ops(
                registry@,
                dst@,
                registry::entries(values@),
                overwrite,
            ));
            make_until(registry, trial.journal.as_slice(), Some(f.after));
        },
    }
}

fn merge_group(
    registry: &mut Registry,
    group: &[String],
    dst: &str,
    overwrite: bool,
    merges: &Vec<Option<Refusal>>,
)
    ensures
        registry::advanced(
            *old(registry),
            *final(registry),
            merge_ops(
                old(registry)@,
                dst@,
                text::texts(group@),
                overwrite,
                merges@.map_values(|m: Option<Refusal>| refusal::opt_refusal(m)),
                group@.len(),
            ),
        ),
{
    let ghost r0 = *registry;
    let ghost all = text::texts(group@);
    let ghost list = merges@.map_values(|m: Option<Refusal>| refusal::opt_refusal(m));
    let mut k: usize = 0;
    proof {
        registry::lemma_advanced_refl(r0);
    }
    while k < group.len()
        invariant
            k <= group.len(),
            all == text::texts(group@),
            list == merges@.map_values(|m: Option<Refusal>| refusal::opt_refusal(m)),
            registry::advanced(
                r0,
                *registry,
                merge_ops(r0@, dst@, all, overwrite, list, k as nat),
            ),
        decreases group.len() - k,
    {
        let ghost done = merge_ops(r0@, dst@, all, overwrite, list, k as nat);
        let ghost rb = *registry;
        let i = group.len() - 1 - k;
        assert(all[i as int] == group@[i as int]@);
        merge_one(registry, group[i].as_str(), dst, overwrite, refusal_at(merges, i));
        proof {
            registry::lemma_advanced_trans(
                r0,
                rb,
                *registry,
                done,
                merge_one_ops(
                    rb@,
                    dst@,
                    all[i as int],
                    overwrite,
                    merge_refused(list, i as int),
                ),
            );
        }
        k += 1;
    }
}

/// A text, or another where it is blank.
pub open spec fn picked(primary: Seq<char>, fallback: Seq<char>) -> Seq<char> {
    if text::trim(primary).len() == 0 {
        fallback
    } else {
        primary
    }
}

/// A text, or another where it is blank.
pub fn pick(primary: &str, fallback: &str) -> (r: String)
    ensures
        r@ == picked(primary@, fallback@),
{
    let t = trim_text(primary);
    if t.as_str().is_empty() {
        fallback.to_owned()
    } else {
        primary.to_owned()
    }
}

/// What is known of a device now, and what was kept of it where that is unknown;
/// without the endpoints that it had.
pub open spec fn refreshed(live: IdentityView, stored: IdentityView) -> IdentityView {
    IdentityView {
        instance_id: picked(live.instance_id, stored.instance_id),
        hardware_ids: if live.hardware_ids.len() == 0 {
            stored.hardware_ids
        } else {
            live.hardware_ids
        },
        product_name: picked(live.product_name, stored.product_name),
        interface_name: picked(live.interface_name, stored.interface_name),
        endpoint_history: Seq::empty(),
    }
}

fn refresh(live: &EndpointIdentity, stored: &EndpointIdentity) -> (r: EndpointIdentity)
    ensures
        r@ == refreshed(live@, stored@),
{
    assert(text::texts(live.hardware_ids@).len() == live.hardware_ids@.len());
    let hardware = if live.hardware_ids.len() == 0 {
        copy_texts(stored.hardware_ids.as_slice())
    } else {
        copy_texts(live.hardware_ids.as_slice())
    };
    let r = EndpointIdentity {
        instance_id: pick(live.instance_id.as_str(), stored.instance_id.as_str()),
        hardware_ids: hardware,
        product_name: pick(live.product_name.as_str(), stored.product_name.as_str()),
        interface_name: pick(live.interface_name.as_str(), stored.interface_name.as_str()),
        endpoint_history: Vec::new(),
    };
    assert(r@.endpoint_history =~= Seq::empty());
    r
}

/// The lists of endpoints that a device had: as kept, as known now, the target,
/// and each old endpoint.
pub open spec fn history_lists(
    stored: Seq<Seq<char>>,
    live: Seq<Seq<char>>,
    new_guid: Seq<char>,
    group: Seq<Seq<char>>,
) -> Seq<Seq<Seq<char>>> {
    seq![stored, live, seq![new_guid]] + group.map_values(|g: Seq<char>| seq![g])
}

fn join_history(stored: &[String], live: &[String], new_guid: &str, group: &[String]) -> (r: Vec<
    String,
>)
    ensures
        text::texts(r@) == identity::merged_history(
            history_lists(
                text::texts(stored@),
                text::texts(live@),
                new_guid@,
                text::texts(group@),
            ),
        ),
{
    let mut lists: Vec<Vec<String>> = Vec::new();
    lists.push(copy_texts(stored));
    lists.push(copy_texts(live));
    let mut own: Vec<String> = Vec::new();
    own.push(new_guid.to_owned());
    assert(text::texts(own@) =~= seq![new_guid@]);
    lists.push(own);
    let ghost head = seq![text::texts(stored@), text::texts(live@), seq![new_guid@]];
    let ghost all = text::texts(group@);
    assert(identity::text_lists(lists@) =~= head);
    let mut i: usize = 0;
    assert(head + all.take(0).map_values(|g: Seq<char>| seq![g]) =~= head);
    while i < group.len()
        invariant
            i <= group.len(),
            all == text::texts(group@),
            identity::text_lists(lists@) == head + all.take(i as int).map_values(
                |g: Seq<char>| seq![g],
            ),
        decreases group.len() - i,
    {
        let ghost before = identity::text_lists(lists@);
        let mut one: Vec<String> = Vec::new();
        one.push(group[i].clone());
        assert(text::texts(one@) =~= seq![all[i as int]]);
        lists.push(one);
        assert(identity::text_lists(lists@) =~= before.push(seq![all[i as int]]));
        assert(identity::text_lists(lists@) =~= head + all.take(i + 1).map_values(
            |g: Seq<char>| seq![g],
        ));
        i += 1;
    }
    assert(all.take(i as int) =~= all);
    merge_endpoint_history(lists.as_slice())
}

/// The registry once the records are merged into that of the target.
pub open spec fn merged(
    r: Seq<KeyView>,
    new_guid: Seq<char>,
    group: Seq<Seq<char>>,
    overwrite: bool,
    merges: Seq<Option<RefusalView>>,
) -> Seq<KeyView> {
    let p = child::record_path(new_guid);
    let r1 = registry::apply_all(r, seq![OpView::CreateKey { root: Hkey::LocalMachine, path: p }]);
    registry::apply_all(r1, merge_ops(r1, p, group, overwrite, merges, group.len()))
}

/// The changes that enter what is known of a device into the record of its new
/// endpoint, up to the one that was refused.
pub open spec fn enter_ops(
    r: Seq<KeyView>,
    endpoint_path: Seq<char>,
    new_guid: Seq<char>,
    group: Seq<Seq<char>>,
    refused: Option<RefusalView>,
) -> Seq<OpView> {
    let p = child::record_path(new_guid);
    let stored = identity::record_identity(r, Hkey::LocalMachine, p);
    let live = identity::live_identity(r, endpoint_path);
    refusal::made(
        identity::identity_ops(
            p,
            refreshed(live, stored),
            identity::merged_history(
                history_lists(stored.endpoint_history, live.endpoint_history, new_guid, group),
            ),
        ),
        refusal::reach(refused),
    )
}

/// The changes that merge the records of a device's old endpoints into that of
/// the target, and enter what is known of the device; each as far as it was not
/// refused.
pub open spec fn adopt_ops(
    r: Seq<KeyView>,
    endpoint_path: Seq<char>,
    new_guid: Seq<char>,
    group: Seq<Seq<char>>,
    overwrite: bool,
    outcomes: OutcomesView,
) -> Seq<OpView> {
    let p = child::record_path(new_guid);
    let create = seq![OpView::CreateKey { root: Hkey::LocalMachine, path: p }];
    let r1 = registry::apply_all(r, create);
    let r2 = merged(r, new_guid, group, overwrite, outcomes.merges);
    create + merge_ops(r1, p, group, overwrite, outcomes.merges, group.len()) + enter_ops(
        r2,
        endpoint_path,
        new_guid,
        group,
        outcomes.identity,
    )
}

/// The changes that delete the records of the first `n` of some endpoints, but for
/// those that were refused.
pub open spec fn forget_ops(
    group: Seq<Seq<char>>,
    deletions: Seq<Option<Seq<char>>>,
    n: nat,
) -> Seq<OpView>
    decreases n,
{
    if n == 0 {
        Seq::empty()
    } else {
        let i = n - 1;
        forget_ops(group, deletions, i as nat) + identity::op_if(
            refused_of(deletions, i) is None,
            OpView::DeleteTree { root: Hkey::LocalMachine, path: child::record_path(group[i]) },
        )
    }
}

/// Enters what is known of a device into the record of its new endpoint, up to the
/// write that was refused.
fn enter_identity(
    registry: &mut Registry,
    endpoint_path: &str,
    new_guid: &str,
    group: &[String],
    refused: &Option<Refusal>,
)
    ensures
        registry::advanced(
            *old(registry),
            *final(registry),
            enter_ops(
                old(registry)@,
                endpoint_path@,
                new_guid@,
                text::texts(group@),
                refusal::opt_refusal(*refused),
            ),
        ),
{
    let p = join_path(CHILD_APO_ROOT_REL, new_guid);
    let stored = match RegKey::open(registry, Hkey::LocalMachine, p.as_str()) {
        Some(key) => identity_from_key(&key),
        None => EndpointIdentity::default(),
    };
    assert(stored@.endpoint_history =~= identity::record_identity(
        registry@,
        Hkey::LocalMachine,
        p@,
    ).endpoint_history);
    assert(stored@.hardware_ids =~= identity::record_identity(
        registry@,
        Hkey::LocalMachine,
        p@,
    ).hardware_ids);
    let live = read_endpoint_identity(registry, endpoint_path);
    let id = refresh(&live, &stored);
    let history = join_history(
        stored.endpoint_history.as_slice(),
        live.endpoint_history.as_slice(),
        new_guid,
        group,
    );
    match refused {
        None => {
            write_identity_values(registry, p.as_str(), &id, history.as_slice());
        },
        Some(f) => {
            let mut trial = snapshot(registry);
            write_identity_values(&mut trial, p.as_str(), &id, history.as_slice());
            assert(trial.log() =~= identity::identity_ops(p@, id@, text::texts(history@)));
            make_until(registry, trial.journal.as_slice(), Some(f.after));
        },
    }
}

fn adopt(
    registry: &mut Registry,
    endpoint_path: &str,
    new_guid: &str,
    group: &[String],
    overwrite: bool,
    outcomes: &MigrationOutcomes,
)
    ensures
        registry::advanced(
            *old(registry),
            *final(registry),
            adopt_ops(
                old(registry)@,
                endpoint_path@,
                new_guid@,
                text::texts(group@),
                overwrite,
                outcomes@,
            ),
        ),
{
    let ghost r0 = *registry;
    let p = join_path(CHILD_APO_ROOT_REL, new_guid);
    registry.create_key(Hkey::LocalMachine, p.as_str());
    let ghost r1 = *registry;
    let ghost o1 = seq![OpView::CreateKey { root: Hkey::LocalMachine, path: p@ }];
    merge_group(registry, group, p.as_str(), overwrite, &outcomes.merges);
    let ghost r2 = *registry;
    let ghost o2 = merge_ops(
        r1@,
        p@,
        text::texts(group@),
        overwrite,
        outcomes@.merges,
        group@.len(),
    );
    enter_identity(registry, endpoint_path, new_guid, group, &outcomes.identity);
    proof {
        registry::lemma_advanced_trans(r0, r1, r2, o1, o2);
        registry::lemma_advanced_trans(
            r0,
            r2,
            *registry,
            o1 + o2,
            enter_ops(
                r2@,
                endpoint_path@,
                new_guid@,
                text::texts(group@),
                outcomes@.identity,
            ),
        );
    }
}

/// Whether all of some changes set values.
pub open spec fn only_sets(ops: Seq<OpView>) -> bool {
    forall|i: int| 0 <= i < ops.len() ==> (#[trigger] ops[i]) is SetValue
}

proof fn lemma_copy_keeps_keys(
    r: Seq<KeyView>,
    dst: Seq<char>,
    values: Seq<EntryView>,
    overwrite: bool,
)
    ensures
        registry::keeps_keys(copy_ops(r, dst, values, overwrite)),
        only_sets(copy_ops(r, dst, values, overwrite)),
    decreases values.len(),
{
    if values.len() > 0 {
        lemma_copy_keeps_keys(r, dst, values.drop_last(), overwrite);
    }
}

proof fn lemma_merge_keeps_keys(
    r: Seq<KeyView>,
    dst: Seq<char>,
    group: Seq<Seq<char>>,
    overwrite: bool,
    merges: Seq<Option<RefusalView>>,
    n: nat,
)
    ensures
        registry::keeps_keys(merge_ops(r, dst, group, overwrite, merges, n)),
        only_sets(merge_ops(r, dst, group, overwrite, merges, n)),
    decreases n,
{
    if n > 0 {
        let i = group.len() - n;
        let before = merge_ops(r, dst, group, overwrite, merges, (n - 1) as nat);
        let r1 = registry::apply_all(r, before);
        let refused = merge_refused(merges, i);
        let whole = copy_ops(r1, dst, detect::info_values(r1, group[i]), overwrite);
        let one = merge_one_ops(r1, dst, group[i], overwrite, refused);
        lemma_merge_keeps_keys(r, dst, group, overwrite, merges, (n - 1) as nat);
        lemma_copy_keeps_keys(r1, dst, detect::info_values(r1, group[i]), overwrite);
        assert forall|k: int| 0 <= k < one.len() implies (#[trigger] one[k]) is SetValue by {
            assert(one[k] == whole[k]);
        }
        assert(registry::keeps_keys(one));
        registry::lemma_keeps_keys_concat(before, one);
    }
}

fn forget_group(registry: &mut Registry, group: &[String], deletions: &Vec<Option<String>>)
    ensures
        registry::advanced(
            *old(registry),
            *final(registry),
            forget_ops(
                text::texts(group@),
                deletions@.map_values(|d: Option<String>| stale::opt_text(d)),
                group@.len(),
            ),
        ),
{
    let ghost r0 = *registry;
    let ghost all = text::texts(group@);
    let ghost list = deletions@.map_values(|d: Option<String>| stale::opt_text(d));
    let mut i: usize = 0;
    proof {
        registry::lemma_advanced_refl(r0);
    }
    while i < group.len()
        invariant
            i <= group.len(),
            all == text::texts(group@),
            list == deletions@.map_values(|d: Option<String>| stale::opt_text(d)),
            registry::advanced(r0, *registry, forget_ops(all, list, i as nat)),
        decreases group.len() - i,
    {
        let ghost rb = *registry;
        let ghost done = forget_ops(all, list, i as nat);
        let ghost op = OpView::DeleteTree {
            root: Hkey::LocalMachine,
            path: child::record_path(all[i as int]),
        };
        assert(all[i as int] == group@[i as int]@);
        proof {
            registry::lemma_advanced_refl(rb);
        }
        if error_at(deletions, i).is_none() {
            let path = join_path(CHILD_APO_ROOT_REL, group[i].as_str());
            registry.delete_tree(Hkey::LocalMachine, path.as_str());
        }
        proof {
            registry::lemma_advanced_trans(
                r0,
                rb,
                *registry,
                done,
                identity::op_if(refused_of(list, i as int) is None, op),
            );
        }
        i += 1;
    }
}

impl MigrationPlan {
    /// Opens the record of the target.
    pub fn open_target(&self, registry: &mut Registry)
        ensures
            registry::advanced(
                *old(registry),
                *final(registry),
                seq![OpView::CreateKey {
                    root: Hkey::LocalMachine,
                    path: child::record_path(self@.target_guid),
                }],
            ),
    {
        let p = join_path(CHILD_APO_ROOT_REL, self.target_guid.as_str());
        registry.create_key(Hkey::LocalMachine, p.as_str());
    }

    /// Merges the record of one of the old endpoints into that of the target.
    pub fn merge_record(&self, registry: &mut Registry, i: usize)
        requires
            i < self@.group.len(),
        ensures
            registry::advanced(
                *old(registry),
                *final(registry),
                merge_one_ops(
                    old(registry)@,
                    child::record_path(self@.target_guid),
                    self@.group[i as int],
                    self@.repaired,
                    None,
                ),
            ),
    {
        let p = join_path(CHILD_APO_ROOT_REL, self.target_guid.as_str());
        assert(self@.group[i as int] == self.group@[i as int]@);
        merge_one(registry, self.group[i].as_str(), p.as_str(), self.repaired, None);
    }

    /// Enters what is known of the device into the record of the target; an error
    /// where the target is not there.
    pub fn enter_device(&self, registry: &mut Registry) -> (r: Result<(), VxApoError>)
        ensures
            match info::endpoint_path(old(registry)@, self@.target_guid) {
                None => {
                    &&& r matches Err(e) && e@ == ErrorView::DeviceNotFound(self@.target_guid)
                    &&& *final(registry) == *old(registry)
                },
                Some(ep) => r is Ok && registry::advanced(
                    *old(registry),
                    *final(registry),
                    enter_ops(old(registry)@, ep, self@.target_guid, self@.group, None),
                ),
            },
    {
        let guid = self.target_guid.as_str();
        match find_endpoint_path(registry, guid) {
            Ok(p) => {
                enter_identity(registry, p.as_str(), guid, self.group.as_slice(), &None);
                Ok(())
            },
            Err(e) => Err(e),
        }
    }

    /// Whether the installation on the target is whole; an error where it is not.
    pub fn check_whole(&self, registry: &Registry) -> (r: Result<(), VxApoError>)
        ensures
            r is Ok == detect::healthy(registry@, self@.target_guid),
            r matches Err(e) ==> e@ == ErrorView::Internal(
                "迁移后目标端点的 VxAPO 安装状态仍不完整（version / Child APOs 缺失）"@,
            ),
    {
        if is_healthy(registry, self.target_guid.as_str()) {
            Ok(())
        } else {
            Err(
                VxApoError::internal(
                    "迁移后目标端点的 VxAPO 安装状态仍不完整（version / Child APOs 缺失）",
                ),
            )
        }
    }

    /// The error where the record of the target could not be opened.
    pub fn target_refused(&self, error: &str) -> (r: VxApoError)
        ensures
            r@ == ErrorView::Internal(target_text(error@)),
    {
        let m = concat2("创建/打开目标信息区失败：", error);
        VxApoError::internal(m.as_str())
    }

    /// Merges the records of the old endpoints into that of the target, enters
    /// what is known of the device, and deletes the old records; each as far as the
    /// system did not refuse it. Where the record of the target cannot be opened,
    /// nothing is done. Where the installation on the target is not whole by then,
    /// the old records stay.
    pub fn merge_records(&self, registry: &mut Registry, outcomes: &MigrationOutcomes) -> (r:
        Result<(), VxApoError>)
        ensures
            match (info::endpoint_path(old(registry)@, self@.target_guid), outcomes@.target) {
                (None, _) => {
                    &&& r matches Err(e) && e@ == ErrorView::DeviceNotFound(self@.target_guid)
                    &&& *final(registry) == *old(registry)
                },
                (Some(_), Some(error)) => {
                    &&& r matches Err(e) && e@ == ErrorView::Internal(target_text(error))
                    &&& *final(registry) == *old(registry)
                },
                (Some(ep), None) => {
                    let ops = adopt_ops(
                        old(registry)@,
                        ep,
                        self@.target_guid,
                        self@.group,
                        self@.repaired,
                        outcomes@,
                    );
                    if detect::healthy(
                        registry::apply_all(old(registry)@, ops),
                        self@.target_guid,
                    ) {
                        r is Ok && registry::advanced(
                            *old(registry),
                            *final(registry),
                            ops + forget_ops(
                                self@.group,
                                outcomes@.deletions,
                                self@.group.len(),
                            ),
                        )
                    } else {
                        &&& r matches Err(e) && e@ == ErrorView::Internal(
                            "迁移后目标端点的 VxAPO 安装状态仍不完整（version / Child APOs 缺失）"@,
                        )
                        &&& registry::advanced(*old(registry), *final(registry), ops)
                    }
                },
            },
    {
        let ghost r0 = *registry;
        let guid = self.target_guid.as_str();
        let endpoint_path = match find_endpoint_path(registry, guid) {
            Ok(p) => p,
            Err(e) => {
                return Err(e);
            },
        };
        match &outcomes.target {
            Some(error) => {
                return Err(self.target_refused(error.as_str()));
            },
            None => {},
        }
        adopt(
            registry,
            endpoint_path.as_str(),
            guid,
            self.group.as_slice(),
            self.repaired,
            outcomes,
        );
        let ghost r1 = *registry;
        match self.check_whole(registry) {
            Ok(_) => {},
            Err(e) => {
                return Err(e);
            },
        }
        forget_group(registry, self.group.as_slice(), &outcomes.deletions);
        proof {
            registry::lemma_advanced_trans(
                r0,
                r1,
                *registry,
                adopt_ops(
                    r0@,
                    endpoint_path@,
                    self@.target_guid,
                    self@.group,
                    self@.repaired,
                    outcomes@,
                ),
                forget_ops(self@.group, outcomes@.deletions, self@.group.len()),
            );
        }
        Ok(())
    }

    /// The report of the migration, with what was to be noted of it.
    pub fn report(&self, warnings: Vec<String>) -> (r: MigrationReport)
        ensures
            r@ == reported(self@, text::texts(warnings@)),
    {
        MigrationReport {
            success: true,
            target_guid: self.target_guid.clone(),
            config_from: match &self.config_source {
                Some(s) => Some(s.guid.clone()),
                None => None,
            },
            snapshot_from: match &self.snapshot_source {
                Some(s) => Some(s.guid.clone()),
                None => None,
            },
            config_migrated: match &self.config_source {
                Some(s) => !eq_ignore_case(s.guid.as_str(), self.target_guid.as_str()),
                None => false,
            },
            snapshot_migrated: match &self.snapshot_source {
                Some(s) => !eq_ignore_case(s.guid.as_str(), self.target_guid.as_str()),
                None => false,
            },
            install_repaired: self.repaired,
            removed_guids: copy_texts(self.group.as_slice()),
            warnings,
        }
    }
}

/// The report of a migration.
pub open spec fn reported(plan: PlanView, warnings: Seq<Seq<char>>) -> ReportView {
    ReportView {
        success: true,
        target_guid: plan.target_guid,
        config_from: match plan.config_source {
            Some(s) => Some(s.guid),
            None => None,
        },
        snapshot_from: match plan.snapshot_source {
            Some(s) => Some(s.guid),
            None => None,
        },
        config_migrated: moves(plan.config_source, plan.target_guid),
        snapshot_migrated: moves(plan.snapshot_source, plan.target_guid),
        install_repaired: plan.repaired,
        removed_guids: plan.group,
        warnings,
    }
}

// ---------------------------------------------------------------------------
// What a migration promises
// ---------------------------------------------------------------------------
/// Copying values into a record concerns values of that record alone.
proof fn lemma_copy_spares(
    r: Seq<KeyView>,
    dst: Seq<char>,
    values: Seq<EntryView>,
    overwrite: bool,
    path: Seq<char>,
    name: Seq<char>,
)
    requires
        !text::eq_ci(dst, path),
    ensures
        registry::untouched(
            copy_ops(r, dst, values, overwrite),
            Hkey::LocalMachine,
            path,
            name,
        ),
    decreases values.len(),
{
    if values.len() > 0 {
        lemma_copy_spares(r, dst, values.drop_last(), overwrite, path, name);
    }
}

proof fn lemma_merge_spares(
    r: Seq<KeyView>,
    dst: Seq<char>,
    group: Seq<Seq<char>>,
    overwrite: bool,
    merges: Seq<Option<RefusalView>>,
    n: nat,
    path: Seq<char>,
    name: Seq<char>,
)
    requires
        !text::eq_ci(dst, path),
    ensures
        registry::untouched(
            merge_ops(r, dst, group, overwrite, merges, n),
            Hkey::LocalMachine,
            path,
            name,
        ),
    decreases n,
{
    if n > 0 {
        let i = group.len() - n;
        let before = merge_ops(r, dst, group, overwrite, merges, (n - 1) as nat);
        let r1 = registry::apply_all(r, before);
        let values = detect::info_values(r1, group[i]);
        let whole = copy_ops(r1, dst, values, overwrite);
        let one = merge_one_ops(r1, dst, group[i], overwrite, merge_refused(merges, i));
        lemma_merge_spares(r, dst, group, overwrite, merges, (n - 1) as nat, path, name);
        lemma_copy_spares(r1, dst, values, overwrite, path, name);
        assert forall|k: int| 0 <= k < one.len() implies !registry::touches(
            #[trigger] one[k],
            Hkey::LocalMachine,
            path,
            name,
        ) by {
            assert(one[k] == whole[k]);
        }
        registry::lemma_untouched_concat(before, one, Hkey::LocalMachine, path, name);
    }
}

/// Adopting records concerns no value but those of the target's record, deletes
/// no key, and leaves the target a record.
proof fn lemma_adopt(
    r: Seq<KeyView>,
    endpoint_path: Seq<char>,
    new_guid: Seq<char>,
    group: Seq<Seq<char>>,
    overwrite: bool,
    outcomes: OutcomesView,
    path: Seq<char>,
    name: Seq<char>,
)
    requires
        !text::eq_ci(child::record_path(new_guid), path),
    ensures
        ({
            let ops = adopt_ops(r, endpoint_path, new_guid, group, overwrite, outcomes);
            &&& registry::untouched(ops, Hkey::LocalMachine, path, name)
            &&& registry::keeps_keys(ops)
            &&& forall|i: int|
                #![trigger ops[i]]
                0 <= i < ops.len() ==> (ops[i] matches OpView::CreateKey { root, path } ==> path
                    == child::record_path(new_guid))
            &&& registry::has_key(
                registry::apply_all(r, ops),
                Hkey::LocalMachine,
                child::record_path(new_guid),
            )
        }),
{
    let h = Hkey::LocalMachine;
    let p = child::record_path(new_guid);
    let o1 = seq![OpView::CreateKey { root: h, path: p }];
    let r1 = registry::apply_all(r, o1);
    let o2 = merge_ops(r1, p, group, overwrite, outcomes.merges, group.len());
    let r2 = merged(r, new_guid, group, overwrite, outcomes.merges);
    let o3 = enter_ops(r2, endpoint_path, new_guid, group, outcomes.identity);
    let whole = enter_ops(r2, endpoint_path, new_guid, group, None);
    lemma_merge_spares(r1, p, group, overwrite, outcomes.merges, group.len(), path, name);
    lemma_merge_keeps_keys(r1, p, group, overwrite, outcomes.merges, group.len());
    assert(registry::untouched(o1, h, path, name));
    assert(registry::untouched(whole, h, path, name));
    assert(only_sets(whole));
    assert forall|k: int| 0 <= k < o3.len() implies (#[trigger] o3[k]) is SetValue
        && !registry::touches(o3[k], h, path, name) by {
        assert(o3[k] == whole[k]);
    }
    registry::lemma_untouched_concat(o1, o2, h, path, name);
    registry::lemma_untouched_concat(o1 + o2, o3, h, path, name);
    assert(registry::keeps_keys(o1));
    assert(registry::keeps_keys(o3));
    let all = o1 + o2 + o3;
    assert forall|i: int| 0 <= i < all.len() implies ((
    #[trigger] all[i]) matches OpView::CreateKey { root, path } ==> path == p) by {
        if 1 <= i < 1 + o2.len() {
            assert(all[i] == o2[i - 1]);
        } else if i >= 1 + o2.len() {
            assert(all[i] == o3[i - 1 - o2.len()]);
        }
    }
    registry::lemma_keeps_keys_concat(o1, o2);
    registry::lemma_keeps_keys_concat(o2, o3);
    registry::lemma_keeps_keys_concat(o1 + o2, o3);
    assert(o1 + o2 + o3 =~= o1 + (o2 + o3));
    registry::lemma_apply_all_concat(r, o1, o2 + o3);
    assert(o1.drop_last() =~= Seq::<OpView>::empty());
    assert(registry::apply_all(r, o1.drop_last()) == r);
    registry::law_created_key_exists(r, h, p, h, p);
    registry::law_keys_stay(r1, o2 + o3, h, p);
}

/// The place of one record is not below that of another whose endpoint has another
/// GUID.
proof fn lemma_records_apart(a: Seq<char>, b: Seq<char>)
    requires
        guid::is_guid_text(b),
        !text::eq_ci(a, b),
    ensures
        !text::eq_ci(child::record_path(a), child::record_path(b)),
        !registry::is_below(child::record_path(b), child::record_path(a)),
{
    let pa = child::record_path(a);
    let pb = child::record_path(b);
    let n = pa.len() - a.len();
    assert(pb.len() - b.len() == n);
    if text::eq_ci(pa, pb) {
        let la = text::ascii_lower(pa);
        let lb = text::ascii_lower(pb);
        assert(la.len() == pa.len() && lb.len() == pb.len());
        assert forall|i: int| 0 <= i < a.len() implies text::ascii_lower(a)[i]
            == text::ascii_lower(b)[i] by {
            assert(la[n + i] == lb[n + i]);
            assert(pa[n + i] == a[i]);
            assert(pb[n + i] == b[i]);
        }
        assert(text::ascii_lower(a) =~= text::ascii_lower(b));
    }
    if registry::is_below(pb, pa) {
        let k = pa.len() - n;
        assert(pb[pa.len() as int] == b[k]);
        lemma_no_backslash(b, k);
    }
}

proof fn lemma_no_backslash(s: Seq<char>, k: int)
    requires
        guid::is_guid_text(s),
        0 <= k < s.len(),
    ensures
        s[k] != '\\',
{
    if 1 <= k < 9 {
        assert(s.subrange(1, 9)[k - 1] == s[k]);
        assert(guid::is_hex(s.subrange(1, 9)[k - 1]));
    } else if 10 <= k < 14 {
        assert(s.subrange(10, 14)[k - 10] == s[k]);
        assert(guid::is_hex(s.subrange(10, 14)[k - 10]));
    } else if 15 <= k < 19 {
        assert(s.subrange(15, 19)[k - 15] == s[k]);
        assert(guid::is_hex(s.subrange(15, 19)[k - 15]));
    } else if 20 <= k < 24 {
        assert(s.subrange(20, 24)[k - 20] == s[k]);
        assert(guid::is_hex(s.subrange(20, 24)[k - 20]));
    } else if 25 <= k < 37 {
        assert(s.subrange(25, 37)[k - 25] == s[k]);
        assert(guid::is_hex(s.subrange(25, 37)[k - 25]));
    }
}

/// The place of an endpoint's effect properties is not that of a record, nor
/// below one.
proof fn lemma_fx_not_record(endpoint_path: Seq<char>, new_guid: Seq<char>, g: Seq<char>)
    requires
        endpoint_path == registry::join(info::RENDER_PATH@, new_guid) || endpoint_path
            == registry::join(info::CAPTURE_PATH@, new_guid),
    ensures
        !text::eq_ci(
            child::record_path(g),
            registry::join(endpoint_path, crate::install::device::slots::FX_PROPERTIES_KEY@),
        ),
        !registry::is_below(
            registry::join(endpoint_path, crate::install::device::slots::FX_PROPERTIES_KEY@),
            child::record_path(g),
        ),
        !text::eq_ci(child::record_path(g), endpoint_path),
        !registry::is_below(endpoint_path, child::record_path(g)),
{
    let rec = child::record_path(g);
    let fx = registry::join(endpoint_path, crate::install::device::slots::FX_PROPERTIES_KEY@);
    reveal_strlit("SOFTWARE\\Microsoft\\Windows\\CurrentVersion\\MMDevices\\Audio\\Render");
    reveal_strlit("SOFTWARE\\Microsoft\\Windows\\CurrentVersion\\MMDevices\\Audio\\Capture");
    reveal_strlit("SOFTWARE\\VxAPO\\Child APOs");
    assert(endpoint_path[9] == 'M');
    assert(fx[9] == 'M');
    assert(rec[9] == 'V');
    lemma_apart(rec, fx);
    lemma_apart(rec, endpoint_path);
}

proof fn lemma_apart(rec: Seq<char>, p: Seq<char>)
    requires
        rec.len() > 9,
        p.len() > 9,
        rec[9] == 'V',
        p[9] == 'M',
    ensures
        !text::eq_ci(rec, p),
        !registry::is_below(p, rec),
{
    assert(text::ascii_lower(rec)[9] == 'v');
    assert(text::ascii_lower(p)[9] == 'm');
    if registry::is_below(p, rec) {
        let head = p.subrange(0, rec.len() as int);
        assert(head[9] == 'M');
        assert(text::ascii_lower(head)[9] == 'm');
    }
}

/// A key stays through deletions that do not cover it.
proof fn lemma_forget_keeps(
    r: Seq<KeyView>,
    group: Seq<Seq<char>>,
    deletions: Seq<Option<Seq<char>>>,
    n: nat,
    path: Seq<char>,
)
    requires
        n <= group.len(),
        forall|i: int|
            0 <= i < group.len() ==> !text::eq_ci(child::record_path(#[trigger] group[i]), path)
                && !registry::is_below(path, child::record_path(group[i])),
    ensures
        registry::values_at(
            registry::apply_all(r, forget_ops(group, deletions, n)),
            Hkey::LocalMachine,
            path,
        ) == registry::values_at(r, Hkey::LocalMachine, path),
    decreases n,
{
    if n > 0 {
        let i = n - 1;
        let h = Hkey::LocalMachine;
        lemma_forget_keeps(r, group, deletions, i as nat, path);
        let before = forget_ops(group, deletions, i as nat);
        let r1 = registry::apply_all(r, before);
        let p = child::record_path(group[i]);
        let last = identity::op_if(
            refused_of(deletions, i) is None,
            OpView::DeleteTree { root: h, path: p },
        );
        registry::lemma_apply_all_concat(r, before, last);
        lemma_delete_if(r1, p, refused_of(deletions, i) is None);
        registry::law_deleted_tree_is_gone(r1, h, p, h, path);
    }
}

/// One deletion, or none.
proof fn lemma_delete_if(r: Seq<KeyView>, p: Seq<char>, made: bool)
    ensures
        ({
            let op = OpView::DeleteTree { root: Hkey::LocalMachine, path: p };
            registry::apply_all(r, identity::op_if(made, op)) == (if made {
                registry::apply(r, op)
            } else {
                r
            })
        }),
{
    let op = OpView::DeleteTree { root: Hkey::LocalMachine, path: p };
    if made {
        assert(seq![op].drop_last() =~= Seq::<OpView>::empty());
        assert(registry::apply_all(r, seq![op].drop_last()) == r);
    }
}

/// The records of endpoints that were forgotten are gone.
proof fn lemma_forgotten(
    r: Seq<KeyView>,
    group: Seq<Seq<char>>,
    deletions: Seq<Option<Seq<char>>>,
    n: nat,
    i: int,
)
    requires
        0 <= i < n <= group.len(),
        refused_of(deletions, i) is None,
    ensures
        !registry::has_key(
            registry::apply_all(r, forget_ops(group, deletions, n)),
            Hkey::LocalMachine,
            child::record_path(group[i]),
        ),
    decreases n,
{
    let h = Hkey::LocalMachine;
    let k = n - 1;
    let before = forget_ops(group, deletions, k as nat);
    let r1 = registry::apply_all(r, before);
    let g = child::record_path(group[k]);
    let p = child::record_path(group[i]);
    let last = identity::op_if(
        refused_of(deletions, k) is None,
        OpView::DeleteTree { root: h, path: g },
    );
    registry::lemma_apply_all_concat(r, before, last);
    lemma_delete_if(r1, g, refused_of(deletions, k) is None);
    if i < k {
        lemma_forgotten(r, group, deletions, k as nat, i);
    }
    assert(text::eq_ci(p, p));
    registry::law_deleted_tree_is_gone(r1, h, g, h, p);
}

/// A migration to an endpoint whose installation is of the current version leaves
/// that installation whole, whatever writes were refused, and none of the old
/// records whose deletion was not.
pub proof fn law_migration_is_whole(
    r: Seq<KeyView>,
    endpoint_path: Seq<char>,
    new_guid: Seq<char>,
    group: Seq<Seq<char>>,
    overwrite: bool,
    outcomes: OutcomesView,
)
    requires
        guid::is_guid_text(new_guid),
        info::endpoint_path(r, new_guid) == Some(endpoint_path),
        registry::value_at(
            r,
            Hkey::LocalMachine,
            registry::join(endpoint_path, crate::install::device::slots::FX_PROPERTIES_KEY@),
            info::VERSION_VALUE_NAME@,
        ) == Some(
            registry::ValueView::Sz(crate::install::device::slots::INSTALL_VERSION@),
        ),
        !names_guid(group, new_guid),
    ensures
        ({
            let adopted = registry::apply_all(
                r,
                adopt_ops(r, endpoint_path, new_guid, group, overwrite, outcomes),
            );
            let after = registry::apply_all(
                adopted,
                forget_ops(group, outcomes.deletions, group.len()),
            );
            &&& detect::healthy(adopted, new_guid)
            &&& detect::healthy(after, new_guid)
            &&& forall|i: int|
                0 <= i < group.len() && refused_of(outcomes.deletions, i) is None
                    ==> !registry::has_key(
                    after,
                    Hkey::LocalMachine,
                    child::record_path(#[trigger] group[i]),
                )
        }),
{
    let h = Hkey::LocalMachine;
    let fx = registry::join(endpoint_path, crate::install::device::slots::FX_PROPERTIES_KEY@);
    let ops = adopt_ops(r, endpoint_path, new_guid, group, overwrite, outcomes);
    let adopted = registry::apply_all(r, ops);
    let n = group.len();
    let d = outcomes.deletions;
    let after = registry::apply_all(adopted, forget_ops(group, d, n));
    let p = child::record_path(new_guid);
    lemma_fx_not_record(endpoint_path, new_guid, new_guid);
    lemma_adopt(
        r,
        endpoint_path,
        new_guid,
        group,
        overwrite,
        outcomes,
        fx,
        info::VERSION_VALUE_NAME@,
    );
    registry::law_untouched_value_stays(r, ops, h, fx, info::VERSION_VALUE_NAME@);
    registry::law_keys_stay(r, ops, h, endpoint_path);
    lemma_endpoint_place_stays(r, ops, endpoint_path, new_guid);
    assert(detect::healthy(adopted, new_guid));
    let render = registry::join(info::RENDER_PATH@, new_guid);
    let capture = registry::join(info::CAPTURE_PATH@, new_guid);
    assert forall|i: int| 0 <= i < group.len() implies !text::eq_ci(
        child::record_path(#[trigger] group[i]),
        p,
    ) && !registry::is_below(p, child::record_path(group[i])) by {
        assert(!text::eq_ci(group[i], new_guid));
        lemma_records_apart(group[i], new_guid);
    }
    lemma_forget_keeps(adopted, group, d, n, p);
    assert forall|i: int| 0 <= i < group.len() implies !text::eq_ci(
        child::record_path(#[trigger] group[i]),
        fx,
    ) && !registry::is_below(fx, child::record_path(group[i])) by {
        lemma_fx_not_record(endpoint_path, new_guid, group[i]);
    }
    lemma_forget_keeps(adopted, group, d, n, fx);
    assert forall|i: int| 0 <= i < group.len() implies !text::eq_ci(
        child::record_path(#[trigger] group[i]),
        render,
    ) && !registry::is_below(render, child::record_path(group[i])) by {
        lemma_fx_not_record(render, new_guid, group[i]);
    }
    lemma_forget_keeps(adopted, group, d, n, render);
    assert forall|i: int| 0 <= i < group.len() implies !text::eq_ci(
        child::record_path(#[trigger] group[i]),
        capture,
    ) && !registry::is_below(capture, child::record_path(group[i])) by {
        lemma_fx_not_record(capture, new_guid, group[i]);
    }
    lemma_forget_keeps(adopted, group, d, n, capture);
    assert forall|i: int| 0 <= i < group.len() && refused_of(d, i) is None implies !registry::has_key(
        after,
        h,
        child::record_path(#[trigger] group[i]),
    ) by {
        lemma_forgotten(adopted, group, d, n, i);
    }
}

/// An endpoint is found at the same place after records are adopted.
proof fn lemma_endpoint_place_stays(
    r: Seq<KeyView>,
    ops: Seq<OpView>,
    endpoint_path: Seq<char>,
    new_guid: Seq<char>,
)
    requires
        info::endpoint_path(r, new_guid) == Some(endpoint_path),
        registry::keeps_keys(ops),
        forall|i: int|
            0 <= i < ops.len() ==> ((#[trigger] ops[i]) matches OpView::CreateKey { root, path }
                ==> path == child::record_path(new_guid)),
    ensures
        info::endpoint_path(registry::apply_all(r, ops), new_guid) == Some(endpoint_path),
{
    let render = registry::join(info::RENDER_PATH@, new_guid);
    registry::law_keys_stay(r, ops, Hkey::LocalMachine, endpoint_path);
    if !registry::has_key(r, Hkey::LocalMachine, render) {
        lemma_fx_not_record(render, new_guid, new_guid);
        registry::law_absent_key_stays_absent(r, ops, Hkey::LocalMachine, render);
    }
}

// ---------------------------------------------------------------------------
// What merging promises
// ---------------------------------------------------------------------------
proof fn lemma_copy_step(
    r: Seq<KeyView>,
    dst: Seq<char>,
    values: Seq<EntryView>,
    overwrite: bool,
    name: Seq<char>,
)
    requires
        values.len() > 0,
        registry::has_key(r, Hkey::LocalMachine, dst),
    ensures
        ({
            let h = Hkey::LocalMachine;
            let e = values.last();
            let rb = registry::apply_all(r, copy_ops(r, dst, values.drop_last(), overwrite));
            let ra = registry::apply_all(r, copy_ops(r, dst, values, overwrite));
            let writes = overwrite || registry::value_at(rb, h, dst, e.name) is None;
            &&& registry::has_key(rb, h, dst)
            &&& registry::value_at(ra, h, dst, name) == if writes && text::eq_ci(e.name, name) {
                Some(e.value)
            } else {
                registry::value_at(rb, h, dst, name)
            }
        }),
{
    let h = Hkey::LocalMachine;
    let e = values.last();
    let before = copy_ops(r, dst, values.drop_last(), overwrite);
    let rb = registry::apply_all(r, before);
    lemma_copy_keeps_keys(r, dst, values.drop_last(), overwrite);
    registry::law_keys_stay(r, before, h, dst);
    let all = copy_ops(r, dst, values, overwrite);
    if overwrite || registry::value_at(rb, h, dst, e.name) is None {
        assert(all.drop_last() =~= before);
        assert(all.last() == entry_op(dst, e));
        registry::law_read_after_write(rb, h, dst, e.name, e.value, h, dst, name);
    }
}

/// Copying values into a record without overwriting leaves every value that it has.
pub proof fn law_copy_keeps_values(
    r: Seq<KeyView>,
    dst: Seq<char>,
    values: Seq<EntryView>,
    name: Seq<char>,
)
    requires
        registry::has_key(r, Hkey::LocalMachine, dst),
        registry::value_at(r, Hkey::LocalMachine, dst, name) is Some,
    ensures
        registry::value_at(
            registry::apply_all(r, copy_ops(r, dst, values, false)),
            Hkey::LocalMachine,
            dst,
            name,
        ) == registry::value_at(r, Hkey::LocalMachine, dst, name),
    decreases values.len(),
{
    if values.len() > 0 {
        law_copy_keeps_values(r, dst, values.drop_last(), name);
        lemma_copy_step(r, dst, values, false, name);
        let rb = registry::apply_all(r, copy_ops(r, dst, values.drop_last(), false));
        if text::eq_ci(values.last().name, name) {
            crate::undo::lemma_value_at_ci(
                rb,
                Hkey::LocalMachine,
                dst,
                values.last().name,
                dst,
                name,
            );
        }
    }
}

/// Copying values into a record gives it every value that it does not have; where values
/// are overwritten, the ones that it has too.
pub proof fn law_copy_brings_values(
    r: Seq<KeyView>,
    dst: Seq<char>,
    values: Seq<EntryView>,
    overwrite: bool,
    k: int,
)
    requires
        registry::has_key(r, Hkey::LocalMachine, dst),
        0 <= k < values.len(),
        overwrite || registry::value_at(r, Hkey::LocalMachine, dst, values[k].name) is None,
        forall|j: int|
            0 <= j < values.len() && j != k ==> !text::eq_ci(
                (#[trigger] values[j]).name,
                values[k].name,
            ),
    ensures
        registry::value_at(
            registry::apply_all(r, copy_ops(r, dst, values, overwrite)),
            Hkey::LocalMachine,
            dst,
            values[k].name,
        ) == Some(values[k].value),
    decreases values.len(),
{
    let name = values[k].name;
    let t = values.drop_last();
    lemma_copy_step(r, dst, values, overwrite, name);
    assert(text::eq_ci(name, name));
    if k < t.len() {
        assert(t[k] == values[k]);
        assert forall|j: int| 0 <= j < t.len() && j != k implies !text::eq_ci(
            (#[trigger] t[j]).name,
            t[k].name,
        ) by {
            assert(t[j] == values[j]);
        }
        law_copy_brings_values(r, dst, t, overwrite, k);
        assert(!text::eq_ci(values[values.len() - 1].name, name));
    } else {
        assert forall|j: int| 0 <= j < t.len() implies !text::eq_ci((#[trigger] t[j]).name, name) by {
            assert(t[j] == values[j]);
        }
        lemma_copy_other(r, dst, t, overwrite, name);
    }
}

proof fn lemma_copy_other(
    r: Seq<KeyView>,
    dst: Seq<char>,
    values: Seq<EntryView>,
    overwrite: bool,
    name: Seq<char>,
)
    requires
        registry::has_key(r, Hkey::LocalMachine, dst),
        forall|j: int| 0 <= j < values.len() ==> !text::eq_ci((#[trigger] values[j]).name, name),
    ensures
        registry::value_at(
            registry::apply_all(r, copy_ops(r, dst, values, overwrite)),
            Hkey::LocalMachine,
            dst,
            name,
        ) == registry::value_at(r, Hkey::LocalMachine, dst, name),
    decreases values.len(),
{
    if values.len() > 0 {
        let t = values.drop_last();
        assert forall|j: int| 0 <= j < t.len() implies !text::eq_ci((#[trigger] t[j]).name, name) by {
            assert(t[j] == values[j]);
        }
        lemma_copy_other(r, dst, t, overwrite, name);
        lemma_copy_step(r, dst, values, overwrite, name);
        assert(!text::eq_ci(values[values.len() - 1].name, name));
    }
}

/// A file of another endpoint takes the place of the target's, which is archived before;
/// the target's own file stays where it is.
pub proof fn law_replaced_files_are_archived(
    source: Option<SourceView>,
    target_guid: Seq<char>,
    file: Seq<char>,
)
    ensures
        source matches Some(s) ==> {
            &&& text::eq_ci(s.guid, target_guid) ==> replace_steps(
                source,
                target_guid,
                file,
            ).len() == 0
            &&& !text::eq_ci(s.guid, target_guid) ==> ({
                let list = replace_steps(source, target_guid, file);
                &&& list.len() == 2
                &&& list[0] matches FileStepView::Archive { file: f, dir } && f == file && dir
                    == "C:\\ProgramData\\VxAPO\\_migration_backup"@ + "\\"@ + target_guid
                    + "\\target"@
                &&& list[1] matches FileStepView::Replace { from, to } && from == s.path && to
                    == file
            })
        },
        source is None ==> replace_steps(source, target_guid, file).len() == 0,
{
}

/// What is known of a device now goes before what was kept of it; what was kept fills in
/// what is not known.
pub proof fn law_live_goes_first(live: IdentityView, stored: IdentityView)
    ensures
        ({
            let id = refreshed(live, stored);
            &&& text::trim(live.instance_id).len() > 0 ==> id.instance_id == live.instance_id
            &&& live.instance_id.len() == 0 ==> id.instance_id == stored.instance_id
            &&& live.hardware_ids.len() > 0 ==> id.hardware_ids == live.hardware_ids
            &&& live.hardware_ids.len() == 0 ==> id.hardware_ids == stored.hardware_ids
            &&& text::trim(live.product_name).len() > 0 ==> id.product_name == live.product_name
            &&& live.product_name.len() == 0 ==> id.product_name == stored.product_name
        }),
{
    text::lemma_trim_len(live.instance_id);
    text::lemma_trim_len(live.product_name);
}

/// A report says what the plan did: where each file came from, whether it took the place
/// of the target's, whether the installation was repaired, and which endpoints went.
pub proof fn law_report(plan: PlanView, warnings: Seq<Seq<char>>)
    ensures
        ({
            let v = reported(plan, warnings);
            &&& v.success
            &&& v.target_guid == plan.target_guid
            &&& v.removed_guids == plan.group
            &&& v.install_repaired == plan.repaired
            &&& v.warnings == warnings
            &&& v.config_migrated ==> plan.config_source is Some && v.config_from is Some
            &&& v.snapshot_migrated ==> plan.snapshot_source is Some && v.snapshot_from is Some
            &&& plan.config_source matches Some(s) ==> v.config_from == Some(s.guid)
                && v.config_migrated == !text::eq_ci(s.guid, plan.target_guid)
            &&& plan.snapshot_source matches Some(s) ==> v.snapshot_from == Some(s.guid)
                && v.snapshot_migrated == !text::eq_ci(s.guid, plan.target_guid)
        }),
{
}

/// Only errors that may go away of themselves are met with another attempt: access
/// denied, or a violation of sharing or of a lock.
pub proof fn law_transient_errors(e: FileError)
    ensures
        transient(e) <==> e.permission_denied || e.code == Some(5i32) || e.code == Some(32i32)
            || e.code == Some(33i32),
{
}

} // verus!
