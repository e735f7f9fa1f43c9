//! Finding records of installations on endpoints that are not active.

use vstd::prelude::*;
use crate::error::{ErrorView, VxApoError};
use crate::guid;
use crate::guid::parse_guid_string;
use crate::install::device::identity;
use crate::install::device::identity::{
    find_named, identity_from_values, normalize_device_id, read_string,
};
use crate::install::device::info;
use crate::install::device::info::{find_endpoint_path, VERSION_VALUE_NAME};
use crate::install::device::slots::child;
use crate::install::device::slots::types;
use crate::install::device::slots::types::ApoSlot;
use crate::install::device::slots::child::{child_apo_key_exists, ChildApoKind};
use crate::install::device::slots::{InstallMode, FX_PROPERTIES_KEY, INSTALL_VERSION};
use crate::install::device::stale;
use crate::install::device::stale::matching;
use crate::install::device::stale::matching::{
    active_endpoints, endpoint_device_instance_id, ActiveEndpoint, ActiveView, MatchIndex,
    MatchOutcome, OutcomeView,
};
use crate::install::device::stale::{
    config_path, snapshot_path, FileStat, Files, FilesView, StaleInstall, StaleView,
};
use crate::install::device::sysfx;
use crate::install::device::sysfx::{
    decode_backups, BackupView, SysFxBackup, SYSFX_BACKUP_VALUE,
};
use crate::registry;
use crate::registry::{
    copy_entries, join_path, EntryView, Hkey, KeyView, RegEntry, RegKey, RegValue, Registry,
    ValueView,
};
use crate::text;
use crate::text::{
    concat2, ends_with, eq, find_chars_from, holds_text, insert_text, lower, replace, sub_string,
    to_chars, trim_text, upper,
};

verus! {

/// The place of the installation records.
pub const CHILD_APO_ROOT_REL: &'static str = "SOFTWARE\\VxAPO\\Child APOs";

/// Record value: the name of the slot used before mixing.
pub const BACKUP_PREMIX_SLOT: &'static str = "PreMixSlot";

/// Record value: the name of the slot used after mixing.
pub const BACKUP_POSTMIX_SLOT: &'static str = "PostMixSlot";

// ---------------------------------------------------------------------------
// What a record says
// ---------------------------------------------------------------------------
/// The mode whose slots have the given names, by the property identifiers at
/// their ends.
pub open spec fn slots_mode(pre: Seq<char>, post: Seq<char>) -> Option<InstallMode> {
    let pre = text::ascii_lower(text::trim(pre));
    let post = text::ascii_lower(text::trim(post));
    if ",0"@.is_suffix_of(pre) && ",3"@.is_suffix_of(post) {
        Some(InstallMode::LfxGfx)
    } else if ",5"@.is_suffix_of(pre) && ",6"@.is_suffix_of(post) {
        Some(InstallMode::SfxMfx)
    } else if ",5"@.is_suffix_of(pre) && ",7"@.is_suffix_of(post) {
        Some(InstallMode::SfxEfx)
    } else {
        None
    }
}

/// The mode whose slots have the given names.
pub fn mode_from_slots(pre: &str, post: &str) -> (r: Option<InstallMode>)
    ensures
        r == slots_mode(pre@, post@),
{
    let pre_trimmed = trim_text(pre);
    let post_trimmed = trim_text(post);
    let pre = lower(pre_trimmed.as_str());
    let post = lower(post_trimmed.as_str());
    if ends_with(pre.as_str(), ",0") && ends_with(post.as_str(), ",3") {
        Some(InstallMode::LfxGfx)
    } else if ends_with(pre.as_str(), ",5") && ends_with(post.as_str(), ",6") {
        Some(InstallMode::SfxMfx)
    } else if ends_with(pre.as_str(), ",5") && ends_with(post.as_str(), ",7") {
        Some(InstallMode::SfxEfx)
    } else {
        None
    }
}

/// The text of a value of exactly this name, or the first text of a list.
pub open spec fn named_text(values: Seq<EntryView>, name: Seq<char>) -> Option<Seq<char>> {
    identity::first_text(identity::named_value(values, name))
}

/// The text of a value of exactly this name, or the first text of a list.
pub fn read_sz(values: &[RegEntry], name: &str) -> (r: Option<String>)
    ensures
        stale::opt_text(r) == named_text(registry::entries(values@), name@),
{
    read_string(find_named(values, name))
}

/// The mode of the installation that a record is of.
pub open spec fn record_mode(values: Seq<EntryView>) -> Option<InstallMode> {
    match (
        named_text(values, BACKUP_PREMIX_SLOT@),
        named_text(values, BACKUP_POSTMIX_SLOT@),
    ) {
        (Some(pre), Some(post)) => slots_mode(pre, post),
        _ => None,
    }
}

/// The mode of the installation that a record is of.
pub fn infer_mode(values: &[RegEntry]) -> (r: Option<InstallMode>)
    ensures
        r == record_mode(registry::entries(values@)),
{
    match (read_sz(values, BACKUP_PREMIX_SLOT), read_sz(values, BACKUP_POSTMIX_SLOT)) {
        (Some(pre), Some(post)) => mode_from_slots(pre.as_str(), post.as_str()),
        _ => None,
    }
}

/// The name of a mode.
pub open spec fn mode_text(mode: InstallMode) -> Seq<char> {
    match mode {
        InstallMode::LfxGfx => "LfxGfx"@,
        InstallMode::SfxMfx => "SfxMfx"@,
        InstallMode::SfxEfx => "SfxEfx"@,
    }
}

/// The name of a mode.
pub fn mode_name(mode: InstallMode) -> (r: &'static str)
    ensures
        r@ == mode_text(mode),
{
    match mode {
        InstallMode::LfxGfx => "LfxGfx",
        InstallMode::SfxMfx => "SfxMfx",
        InstallMode::SfxEfx => "SfxEfx",
    }
}

/// The instance identifier in the place of a template: what stands between the
/// first `##?#` and the next `#{`.
pub open spec fn path_instance(path: Seq<char>) -> Option<Seq<char>> {
    match text::find(path, "##?#"@) {
        None => None,
        Some(marker) => {
            let rest = path.subrange(marker + 4, path.len() as int);
            let raw = match text::find(rest, "#{"@) {
                Some(end) => rest.subrange(0, end),
                None => rest,
            };
            if raw.len() == 0 {
                None
            } else {
                Some(identity::device_id(text::replace_char(raw, '#', '\\')))
            }
        },
    }
}

/// The instance identifier in the place of a template.
pub fn extract_device_instance_id(path: &str) -> (r: Option<String>)
    ensures
        stale::opt_text(r) == path_instance(path@),
{
    let v = to_chars(path);
    let mark = to_chars("##?#");
    let close = to_chars("#{");
    proof {
        reveal_strlit("##?#");
        reveal_strlit("#{");
    }
    let marker = match find_chars_from(v.as_slice(), mark.as_slice(), 0) {
        Some(n) => n,
        None => {
            return None;
        },
    };
    let len: usize = v.len();
    assert(marker + 4 <= len);
    let rest_text = sub_string(v.as_slice(), marker + 4, len);
    let rest = to_chars(rest_text.as_str());
    let end = match find_chars_from(rest.as_slice(), close.as_slice(), 0) {
        Some(n) => n,
        None => rest.len(),
    };
    assert(rest_text@.subrange(0, rest_text@.len() as int) =~= rest_text@);
    let raw = sub_string(rest.as_slice(), 0, end);
    if raw.as_str().is_empty() {
        None
    } else {
        let plain = replace(raw.as_str(), '#', '\\');
        Some(normalize_device_id(plain.as_str()))
    }
}

/// The first instance identifier in the places of some backups.
pub open spec fn backups_instance(list: Seq<BackupView>) -> Option<Seq<char>>
    decreases list.len(),
{
    if list.len() == 0 {
        None
    } else {
        match path_instance(list[0].key_path) {
            Some(id) => Some(id),
            None => backups_instance(list.drop_first()),
        }
    }
}

/// The instance identifier that a record's backups lead to.
pub open spec fn sysfx_instance(v: Option<ValueView>) -> Option<Seq<char>> {
    match v {
        Some(ValueView::MultiSz(lines)) => backups_instance(sysfx::line_backups(lines)),
        _ => None,
    }
}

fn first_instance(list: &[SysFxBackup]) -> (r: Option<String>)
    ensures
        stale::opt_text(r) == backups_instance(sysfx::backups(list@)),
{
    let ghost all = sysfx::backups(list@);
    let mut i: usize = 0;
    assert(all.skip(0) =~= all);
    while i < list.len()
        invariant
            i <= list.len(),
            all == sysfx::backups(list@),
            backups_instance(all) == backups_instance(all.skip(i as int)),
        decreases list.len() - i,
    {
        let ghost t = all.skip(i as int);
        assert(t[0] == list@[i as int]@);
        assert(t.drop_first() =~= all.skip(i + 1));
        match extract_device_instance_id(list[i].key_path.as_str()) {
            Some(id) => {
                return Some(id);
            },
            None => {},
        }
        i += 1;
    }
    None
}

/// The instance identifier that a record's backups lead to.
pub fn identity_from_sysfx(value: Option<&RegValue>) -> (r: Option<String>)
    ensures
        stale::opt_text(r) == sysfx_instance(
            match value {
                Some(v) => Some(v@),
                None => None,
            },
        ),
{
    match value {
        Some(RegValue::MultiSz(lines)) => {
            let list = decode_backups(lines.as_slice());
            first_instance(list.as_slice())
        },
        _ => None,
    }
}

/// An error unless a text is a GUID.
pub fn validate_guid(guid: &str) -> (r: Result<(), VxApoError>)
    ensures
        r is Ok == guid::is_guid_text(guid@),
        r matches Err(e) ==> e@ == ErrorView::Internal("无效的端点 GUID："@ + guid@),
{
    match parse_guid_string(guid) {
        Some(_) => Ok(()),
        None => {
            let m = concat2("无效的端点 GUID：", guid);
            Err(VxApoError::internal(m.as_str()))
        },
    }
}

/// Whether a configuration is more than what an endpoint gets of itself.
pub fn config_is_meaningful(config: &FileStat) -> (r: bool)
    ensures
        r == (config.len > 64),
{
    config.len > 64
}

// ---------------------------------------------------------------------------
// Records
// ---------------------------------------------------------------------------
/// A record of an installation.
#[derive(Clone, Debug, PartialEq, Eq)]
pub struct StaleRecord {
    /// The endpoint, in upper case.
    pub guid: String,
    pub device_instance_id: String,
    pub config: Option<FileStat>,
    pub snapshot: Option<FileStat>,
    pub info_values: Vec<RegEntry>,
}

/// The contents of a record.
pub struct RecordView {
    pub guid: Seq<char>,
    pub device_instance_id: Seq<char>,
    pub config: Option<FileStat>,
    pub snapshot: Option<FileStat>,
    pub info_values: Seq<EntryView>,
}

impl View for StaleRecord {
    type V = RecordView;

    open spec fn view(&self) -> RecordView {
        RecordView {
            guid: self.guid@,
            device_instance_id: self.device_instance_id@,
            config: self.config,
            snapshot: self.snapshot,
            info_values: registry::entries(self.info_values@),
        }
    }
}

/// The contents of a list of records.
pub open spec fn record_views(v: Seq<StaleRecord>) -> Seq<RecordView> {
    v.map_values(|e: StaleRecord| e@)
}

/// A sorted list to which names are added, in upper case; where asked for, GUIDs
/// alone.
pub open spec fn with_names(
    start: Seq<Seq<char>>,
    names: Seq<Seq<char>>,
    guids_only: bool,
) -> Seq<Seq<char>>
    decreases names.len(),
{
    if names.len() == 0 {
        start
    } else {
        let rest = with_names(start, names.drop_last(), guids_only);
        if !guids_only || guid::is_guid_text(names.last()) {
            text::insert_sorted(rest, text::ascii_upper(names.last()))
        } else {
            rest
        }
    }
}

/// The endpoints that have a record, a configuration or a snapshot, sorted.
pub open spec fn known_guids(r: Seq<KeyView>, files: FilesView) -> Seq<Seq<char>> {
    let recorded = if registry::has_key(r, Hkey::LocalMachine, CHILD_APO_ROOT_REL@) {
        with_names(
            Seq::empty(),
            registry::children(r, Hkey::LocalMachine, CHILD_APO_ROOT_REL@),
            false,
        )
    } else {
        Seq::empty()
    };
    with_names(with_names(recorded, files.config_dirs, true), files.snapshot_names, true)
}

fn add_names(out: &mut Vec<String>, names: &[String], guids_only: bool)
    ensures
        text::texts(final(out)@) == with_names(
            text::texts(old(out)@),
            text::texts(names@),
            guids_only,
        ),
{
    let ghost all = text::texts(names@);
    let ghost start = text::texts(out@);
    let mut i: usize = 0;
    assert(all.take(0) =~= Seq::empty());
    while i < names.len()
        invariant
            i <= names.len(),
            all == text::texts(names@),
            start == text::texts(old(out)@),
            text::texts(out@) == with_names(start, all.take(i as int), guids_only),
        decreases names.len() - i,
    {
        let ghost t = all.take(i + 1);
        let name = &names[i];
        assert(t.drop_last() =~= all.take(i as int));
        assert(t.last() == name@);
        if !guids_only || parse_guid_string(name.as_str()).is_some() {
            insert_text(out, upper(name.as_str()));
        }
        i += 1;
    }
    assert(all.take(i as int) =~= all);
}

fn collect_guids(registry: &Registry, files: &Files) -> (r: Vec<String>)
    ensures
        text::texts(r@) == known_guids(registry@, files@),
{
    let mut out: Vec<String> = Vec::new();
    assert(text::texts(out@) =~= Seq::empty());
    match RegKey::open(registry, Hkey::LocalMachine, CHILD_APO_ROOT_REL) {
        Some(key) => {
            let names = key.enum_sub_keys();
            add_names(&mut out, names.as_slice(), false);
        },
        None => {},
    }
    add_names(&mut out, files.config_dirs.as_slice(), true);
    add_names(&mut out, files.snapshot_names.as_slice(), true);
    out
}

/// The values of an endpoint's record; none without a record.
pub open spec fn info_values(r: Seq<KeyView>, guid: Seq<char>) -> Seq<EntryView> {
    match registry::values_at(r, Hkey::LocalMachine, child::record_path(guid)) {
        Some(values) => values,
        None => Seq::empty(),
    }
}

/// The record of an endpoint.
pub open spec fn record_of(r: Seq<KeyView>, files: FilesView, guid: Seq<char>) -> RecordView {
    let values = info_values(r, guid);
    let found = stale::files_of(files.entries, guid);
    RecordView {
        guid,
        device_instance_id: match matching::instance_of_guid(r, guid) {
            Some(id) => id,
            None => match sysfx_instance(identity::named_value(values, SYSFX_BACKUP_VALUE@)) {
                Some(id) => id,
                None => Seq::empty(),
            },
        },
        config: found.0,
        snapshot: found.1,
        info_values: values,
    }
}

/// Whether an endpoint is among some, given in upper case.
pub open spec fn is_among(list: Seq<Seq<char>>, guid: Seq<char>) -> bool {
    list.contains(guid)
}

/// The records of those of some endpoints that are not among the active ones; an
/// endpoint without values in its record has none.
pub open spec fn records_of(
    r: Seq<KeyView>,
    files: FilesView,
    active: Seq<Seq<char>>,
    guids: Seq<Seq<char>>,
) -> Seq<RecordView>
    decreases guids.len(),
{
    if guids.len() == 0 {
        Seq::empty()
    } else {
        let rest = records_of(r, files, active, guids.drop_last());
        let guid = guids.last();
        if !is_among(active, guid) && info_values(r, guid).len() > 0 {
            rest.push(record_of(r, files, guid))
        } else {
            rest
        }
    }
}

/// The records of installations on endpoints that are not among the active ones,
/// in the order of their GUIDs.
pub open spec fn stale_records(
    r: Seq<KeyView>,
    files: FilesView,
    active: Seq<Seq<char>>,
) -> Seq<RecordView> {
    records_of(r, files, active, known_guids(r, files))
}

fn read_info_values(registry: &Registry, guid: &str) -> (r: Vec<RegEntry>)
    ensures
        registry::entries(r@) == info_values(registry@, guid@),
{
    let path = join_path(CHILD_APO_ROOT_REL, guid);
    match registry.values(Hkey::LocalMachine, path.as_str()) {
        Some(values) => copy_entries(values),
        None => {
            let r: Vec<RegEntry> = Vec::new();
            assert(registry::entries(r@) =~= Seq::empty());
            r
        },
    }
}

fn read_record(registry: &Registry, files: &Files, guid: &str, values: Vec<RegEntry>) -> (r:
    StaleRecord)
    requires
        registry::entries(values@) == info_values(registry@, guid@),
    ensures
        r@ == record_of(registry@, files@, guid@),
{
    let found = files.of(guid);
    let id = match endpoint_device_instance_id(registry, guid) {
        Some(id) => id,
        None => match identity_from_sysfx(find_named(values.as_slice(), SYSFX_BACKUP_VALUE)) {
            Some(id) => id,
            None => String::new(),
        },
    };
    StaleRecord {
        guid: guid.to_owned(),
        device_instance_id: id,
        config: found.0,
        snapshot: found.1,
        info_values: values,
    }
}

/// The records of installations on endpoints that are not among the active ones,
/// given in upper case. A configuration or a snapshot alone is no record.
pub fn collect_stale_records(registry: &Registry, files: &Files, active_guids: &[String]) -> (r: Vec<
    StaleRecord,
>)
    ensures
        record_views(r@) == stale_records(registry@, files@, text::texts(active_guids@)),
{
    let guids = collect_guids(registry, files);
    let mut out: Vec<StaleRecord> = Vec::new();
    let ghost all = text::texts(guids@);
    let ghost active = text::texts(active_guids@);
    let mut i: usize = 0;
    assert(all.take(0) =~= Seq::empty());
    assert(record_views(out@) =~= Seq::empty());
    while i < guids.len()
        invariant
            i <= guids.len(),
            all == text::texts(guids@),
            active == text::texts(active_guids@),
            record_views(out@) == records_of(registry@, files@, active, all.take(i as int)),
        decreases guids.len() - i,
    {
        let ghost t = all.take(i + 1);
        let ghost before = record_views(out@);
        let g = &guids[i];
        assert(t.drop_last() =~= all.take(i as int));
        assert(t.last() == g@);
        if !holds_text(active_guids, g.as_str()) {
            let values = read_info_values(registry, g.as_str());
            assert(registry::entries(values@).len() == values@.len());
            if values.len() > 0 {
                let rec = read_record(registry, files, g.as_str(), values);
                out.push(rec);
                assert(record_views(out@) =~= before.push(rec@));
            }
        }
        i += 1;
    }
    assert(all.take(i as int) =~= all);
    out
}

// ---------------------------------------------------------------------------
// The list
// ---------------------------------------------------------------------------
/// Whether the installation on an endpoint is whole: it is of the current
/// version, and there is a record.
pub open spec fn healthy(r: Seq<KeyView>, guid: Seq<char>) -> bool {
    match info::endpoint_path(r, guid) {
        Some(p) => registry::as_sz(
            registry::value_at(
                r,
                Hkey::LocalMachine,
                registry::join(p, FX_PROPERTIES_KEY@),
                info::VERSION_VALUE_NAME@,
            ),
        ) == Some(INSTALL_VERSION@) && registry::has_key(
            r,
            Hkey::LocalMachine,
            child::record_path(guid),
        ),
        None => false,
    }
}

/// Whether the installation on an endpoint is whole; an error when there is no
/// such endpoint.
pub fn target_health(registry: &Registry, guid: &str) -> (r: Result<bool, VxApoError>)
    ensures
        match r {
            Ok(b) => info::endpoint_path(registry@, guid@) is Some && b == healthy(
                registry@,
                guid@,
            ),
            Err(e) => info::endpoint_path(registry@, guid@) is None && e@
                == ErrorView::DeviceNotFound(guid@),
        },
{
    let endpoint_path = match find_endpoint_path(registry, guid) {
        Ok(p) => p,
        Err(e) => {
            return Err(e);
        },
    };
    let fx_path = join_path(endpoint_path.as_str(), FX_PROPERTIES_KEY);
    let version_ok = match registry.get_sz(
        Hkey::LocalMachine,
        fx_path.as_str(),
        VERSION_VALUE_NAME,
    ) {
        Some(v) => eq(v.as_str(), INSTALL_VERSION),
        None => false,
    };
    Ok(version_ok && child_apo_key_exists(registry, guid))
}

/// Whether the installation on an endpoint is whole; not so when there is no
/// such endpoint.
pub fn is_healthy(registry: &Registry, guid: &str) -> (r: bool)
    ensures
        r == healthy(registry@, guid@),
{
    match target_health(registry, guid) {
        Ok(b) => b,
        Err(_) => false,
    }
}

/// The target of a record: its GUID, its name and its state, and how it was
/// found.
pub open spec fn target_of(
    r: Seq<KeyView>,
    active: Seq<ActiveView>,
    outcome: OutcomeView,
) -> (Option<Seq<char>>, Option<Seq<char>>, Seq<char>, Option<Seq<char>>) {
    match outcome {
        OutcomeView::Matched(i, source) => (
            Some(active[i].guid),
            Some(active[i].name),
            if healthy(r, active[i].guid) {
                "matched_healthy"@
            } else {
                "matched_partial"@
            },
            Some(source.name_view()),
        ),
        _ => (None, None, "unmatched"@, None),
    }
}

/// The time of a file that may be missing.
pub open spec fn time_of(f: Option<FileStat>) -> Option<u64> {
    match f {
        Some(f) => f.mtime_ms,
        None => None,
    }
}

/// Whether a record keeps what the default effects of the device were.
pub open spec fn keeps_effects(values: Seq<EntryView>) -> bool {
    match identity::named_value(values, SYSFX_BACKUP_VALUE@) {
        Some(ValueView::MultiSz(lines)) => lines.len() > 0,
        Some(_) => true,
        None => false,
    }
}

/// What is listed of a record.
pub open spec fn listed(r: Seq<KeyView>, active: Seq<ActiveView>, rec: RecordView) -> StaleView {
    let stored = identity::values_identity(rec.info_values);
    let index = active.map_values(|a: ActiveView| matching::keys_of(a));
    let target = target_of(
        r,
        active,
        matching::resolved(index, rec.guid, rec.device_instance_id, stored),
    );
    StaleView {
        guid: rec.guid,
        device_instance_id: if rec.device_instance_id.len() > 0 {
            rec.device_instance_id
        } else {
            stored.instance_id
        },
        display_name: match target.1 {
            Some(name) => name,
            None => rec.guid,
        },
        matched_by: target.3,
        config_path: if rec.config is Some {
            Some(stale::config_file(rec.guid))
        } else {
            None
        },
        config_mtime_ms: time_of(rec.config),
        snapshot_path: if rec.snapshot is Some {
            Some(stale::snapshot_file(rec.guid))
        } else {
            None
        },
        snapshot_mtime_ms: time_of(rec.snapshot),
        premix_slot: named_text(rec.info_values, BACKUP_PREMIX_SLOT@),
        postmix_slot: named_text(rec.info_values, BACKUP_POSTMIX_SLOT@),
        inferred_mode: mode_text(
            match record_mode(rec.info_values) {
                Some(m) => m,
                None => InstallMode::SfxEfx,
            },
        ),
        has_child_backup: identity::named_value(
            rec.info_values,
            child::child_value_name(ChildApoKind::PreMix),
        ) is Some || identity::named_value(
            rec.info_values,
            child::child_value_name(ChildApoKind::PostMix),
        ) is Some,
        has_sysfx_backup: keeps_effects(rec.info_values),
        target_guid: target.0,
        target_name: target.1,
        target_state: target.2,
    }
}

/// The active endpoints, by their GUIDs in upper case.
pub open spec fn active_names(active: Seq<ActiveView>) -> Seq<Seq<char>> {
    active.map_values(|a: ActiveView| text::ascii_upper(a.guid))
}

/// What is listed of the records of installations on endpoints that are not
/// active.
pub open spec fn stale_list(r: Seq<KeyView>, files: FilesView) -> Seq<StaleView> {
    let active = matching::active_set(r);
    stale_records(r, files, active_names(active)).map_values(|rec: RecordView| listed(r, active, rec))
}

fn list_one(registry: &Registry, active: &[ActiveEndpoint], index: &MatchIndex, record: &StaleRecord) -> (
r: StaleInstall)
    requires
        index@ == matching::actives(active@).map_values(|a: ActiveView| matching::keys_of(a)),
    ensures
        r@ == listed(registry@, matching::actives(active@), record@),
{
    let stored = identity_from_values(record.info_values.as_slice());
    let hit = index.resolve(record.guid.as_str(), record.device_instance_id.as_str(), &stored);
    proof {
        matching::law_matches_are_active(index@, record.guid@, record.device_instance_id@, stored@);
    }
    let (target_guid, target_name, target_state, matched_by) = match hit {
        MatchOutcome::Matched(i, source) => {
            let ep = &active[i];
            assert(matching::actives(active@)[i as int] == ep@);
            (
                Some(ep.guid.clone()),
                Some(ep.name.clone()),
                if is_healthy(registry, ep.guid.as_str()) {
                    "matched_healthy"
                } else {
                    "matched_partial"
                },
                Some(source.name().to_owned()),
            )
        },
        _ => (None, None, "unmatched", None),
    };
    let mode = match infer_mode(record.info_values.as_slice()) {
        Some(m) => m,
        None => InstallMode::SfxEfx,
    };
    let device_instance_id = if record.device_instance_id.as_str().is_empty() {
        stored.instance_id.clone()
    } else {
        record.device_instance_id.clone()
    };
    let display_name = match &target_name {
        Some(n) => n.clone(),
        None => record.guid.clone(),
    };
    let has_child_backup = find_named(
        record.info_values.as_slice(),
        ChildApoKind::PreMix.value_name(),
    ).is_some() || find_named(
        record.info_values.as_slice(),
        ChildApoKind::PostMix.value_name(),
    ).is_some();
    let has_sysfx_backup = match find_named(record.info_values.as_slice(), SYSFX_BACKUP_VALUE) {
        Some(RegValue::MultiSz(lines)) => {
            assert(text::texts(lines@).len() == lines@.len());
            lines.len() > 0
        },
        Some(_) => true,
        None => false,
    };
    StaleInstall {
        guid: record.guid.clone(),
        device_instance_id,
        display_name,
        matched_by,
        config_path: match record.config {
            Some(_) => Some(config_path(record.guid.as_str())),
            None => None,
        },
        config_mtime_ms: match record.config {
            Some(f) => f.mtime_ms,
            None => None,
        },
        snapshot_path: match record.snapshot {
            Some(_) => Some(snapshot_path(record.guid.as_str())),
            None => None,
        },
        snapshot_mtime_ms: match record.snapshot {
            Some(f) => f.mtime_ms,
            None => None,
        },
        premix_slot: read_sz(record.info_values.as_slice(), BACKUP_PREMIX_SLOT),
        postmix_slot: read_sz(record.info_values.as_slice(), BACKUP_POSTMIX_SLOT),
        inferred_mode: mode_name(mode).to_owned(),
        has_child_backup,
        has_sysfx_backup,
        target_guid,
        target_name,
        target_state: target_state.to_owned(),
    }
}

/// The installations on endpoints that are not active, each with the active
/// endpoint that took its place, where there is one such.
pub fn list_stale_installs(registry: &Registry, files: &Files) -> (r: Vec<StaleInstall>)
    ensures
        r@.map_values(|s: StaleInstall| s@) == stale_list(registry@, files@),
{
    let active = active_endpoints(registry);
    let mut active_guids: Vec<String> = Vec::new();
    let ghost views = matching::actives(active@);
    let mut i: usize = 0;
    while i < active.len()
        invariant
            i <= active.len(),
            views == matching::actives(active@),
            active_guids@.len() == i,
            forall|j: int|
                0 <= j < i ==> (#[trigger] active_guids@[j])@ == text::ascii_upper(views[j].guid),
        decreases active.len() - i,
    {
        assert(views[i as int] == active@[i as int]@);
        active_guids.push(upper(active[i].guid.as_str()));
        i += 1;
    }
    assert(text::texts(active_guids@) =~= active_names(views));
    let index = MatchIndex::new(active.as_slice());
    let records = collect_stale_records(registry, files, active_guids.as_slice());
    let ghost all = record_views(records@);
    let mut result: Vec<StaleInstall> = Vec::new();
    let mut k: usize = 0;
    while k < records.len()
        invariant
            k <= records.len(),
            all == record_views(records@),
            views == matching::actives(active@),
            index@ == views.map_values(|a: ActiveView| matching::keys_of(a)),
            result@.len() == k,
            forall|j: int|
                0 <= j < k ==> (#[trigger] result@[j])@ == listed(registry@, views, all[j]),
        decreases records.len() - k,
    {
        assert(all[k as int] == records@[k as int]@);
        let one = list_one(registry, active.as_slice(), &index, &records[k]);
        result.push(one);
        k += 1;
    }
    assert(result@.map_values(|s: StaleInstall| s@) =~= stale_list(registry@, files@));
    result
}

// ---------------------------------------------------------------------------
// What the records promise
// ---------------------------------------------------------------------------
proof fn lemma_with_names_sorted(start: Seq<Seq<char>>, names: Seq<Seq<char>>, guids_only: bool)
    requires
        text::strictly_sorted(start),
    ensures
        text::strictly_sorted(with_names(start, names, guids_only)),
    decreases names.len(),
{
    if names.len() > 0 {
        lemma_with_names_sorted(start, names.drop_last(), guids_only);
        text::lemma_insert_sorted(
            with_names(start, names.drop_last(), guids_only),
            text::ascii_upper(names.last()),
        );
    }
}

/// The GUIDs of some records.
pub open spec fn record_guids(list: Seq<RecordView>) -> Seq<Seq<char>> {
    list.map_values(|rec: RecordView| rec.guid)
}

/// Records come in the order of their GUIDs, each GUID once; none is of an active
/// endpoint, and each has values.
pub proof fn law_stale_records(r: Seq<KeyView>, files: FilesView, active: Seq<Seq<char>>)
    ensures
        text::strictly_sorted(record_guids(stale_records(r, files, active))),
        forall|i: int|
            0 <= i < stale_records(r, files, active).len() ==> {
                let rec = #[trigger] stale_records(r, files, active)[i];
                !active.contains(rec.guid) && rec.info_values.len() > 0
            },
{
    let guids = known_guids(r, files);
    assert(text::strictly_sorted(Seq::<Seq<char>>::empty()));
    let recorded = if registry::has_key(r, Hkey::LocalMachine, CHILD_APO_ROOT_REL@) {
        with_names(
            Seq::empty(),
            registry::children(r, Hkey::LocalMachine, CHILD_APO_ROOT_REL@),
            false,
        )
    } else {
        Seq::empty()
    };
    lemma_with_names_sorted(
        Seq::empty(),
        registry::children(r, Hkey::LocalMachine, CHILD_APO_ROOT_REL@),
        false,
    );
    lemma_with_names_sorted(recorded, files.config_dirs, true);
    lemma_with_names_sorted(
        with_names(recorded, files.config_dirs, true),
        files.snapshot_names,
        true,
    );
    lemma_records_of(r, files, active, guids);
}

proof fn lemma_records_of(
    r: Seq<KeyView>,
    files: FilesView,
    active: Seq<Seq<char>>,
    guids: Seq<Seq<char>>,
)
    requires
        text::strictly_sorted(guids),
    ensures
        text::strictly_sorted(record_guids(records_of(r, files, active, guids))),
        forall|i: int|
            0 <= i < records_of(r, files, active, guids).len() ==> {
                let rec = #[trigger] records_of(r, files, active, guids)[i];
                !active.contains(rec.guid) && rec.info_values.len() > 0 && guids.contains(rec.guid)
            },
    decreases guids.len(),
{
    if guids.len() > 0 {
        let t = guids.drop_last();
        let g = guids.last();
        let rest = records_of(r, files, active, t);
        let all = records_of(r, files, active, guids);
        lemma_records_of(r, files, active, t);
        assert forall|i: int| 0 <= i < all.len() implies ({
            let rec = #[trigger] all[i];
            !active.contains(rec.guid) && rec.info_values.len() > 0 && guids.contains(rec.guid)
        }) by {
            if i < rest.len() {
                assert(all[i] == rest[i]);
                let k = choose|k: int| 0 <= k < t.len() && t[k] == rest[i].guid;
                assert(guids[k] == rest[i].guid);
            } else {
                assert(guids[guids.len() - 1] == g);
            }
        }
        let a = record_guids(all);
        assert forall|i: int, j: int| 0 <= i < j < a.len() implies text::text_lt(
            #[trigger] a[i],
            #[trigger] a[j],
        ) by {
            if j < rest.len() {
                assert(record_guids(rest)[i] == a[i]);
                assert(record_guids(rest)[j] == a[j]);
            } else {
                assert(a[j] == g);
                assert(all[i] == rest[i]);
                let k = choose|k: int| 0 <= k < t.len() && t[k] == rest[i].guid;
                assert(guids[k] == a[i]);
                assert(guids[guids.len() - 1] == g);
            }
        }
    }
}

/// The mode of an installation is told from the names of the slots that it occupies.
pub proof fn law_mode_of_slot_names(mode: InstallMode)
    ensures
        slots_mode(
            types::slot_name(types::premix_of(mode)),
            types::slot_name(types::postmix_of(mode)),
        ) == Some(mode),
{
    reveal_strlit(",0");
    reveal_strlit(",3");
    reveal_strlit(",5");
    reveal_strlit(",6");
    reveal_strlit(",7");
    lemma_slot_end(types::premix_of(mode));
    lemma_slot_end(types::postmix_of(mode));
    let a = text::ascii_lower(text::trim(types::slot_name(types::premix_of(mode))));
    let b = text::ascii_lower(text::trim(types::slot_name(types::postmix_of(mode))));
    lemma_suffix(",0"@, a);
    lemma_suffix(",5"@, a);
    lemma_suffix(",3"@, b);
    lemma_suffix(",6"@, b);
    lemma_suffix(",7"@, b);
}

proof fn lemma_suffix(w: Seq<char>, s: Seq<char>)
    requires
        w.len() == 2,
        s.len() >= 2,
    ensures
        w.is_suffix_of(s) == (s[s.len() - 2] == w[0] && s[s.len() - 1] == w[1]),
{
    let t = s.subrange(s.len() - 2, s.len() as int);
    if s[s.len() - 2] == w[0] && s[s.len() - 1] == w[1] {
        assert(t =~= w);
    }
    if w.is_suffix_of(s) {
        assert(t == w);
        assert(t[0] == w[0] && t[1] == w[1]);
    }
}

proof fn lemma_slot_end(slot: ApoSlot)
    ensures
        ({
            let s = text::ascii_lower(text::trim(types::slot_name(slot)));
            s.len() >= 2 && s[s.len() - 2] == ',' && s[s.len() - 1] == match slot {
                ApoSlot::Lfx => '0',
                ApoSlot::Gfx => '3',
                ApoSlot::Sfx => '5',
                ApoSlot::Mfx => '6',
                ApoSlot::Efx => '7',
            }
        }),
{
    reveal_strlit("{d04e05a6-594b-4fb6-a80d-01af5eed7d1d},");
    let s = types::slot_name(slot);
    let n = types::SLOT_NAME_PREFIX@.len() as int;
    assert(s.len() == n + 1);
    assert(s[n] == text::digit_char(types::slot_pid(slot) as nat));
    assert(s[n - 1] == ',');
    assert(s[0] == '{');
    text::lemma_trim_noop(s);
    let t = text::ascii_lower(s);
    assert(t[n] == text::lower_char(s[n]));
    assert(t[n - 1] == text::lower_char(s[n - 1]));
}

proof fn lemma_with_names(
    start: Seq<Seq<char>>,
    names: Seq<Seq<char>>,
    guids_only: bool,
    y: Seq<char>,
)
    requires
        text::strictly_sorted(start),
    ensures
        with_names(start, names, guids_only).contains(y) <==> start.contains(y) || exists|k: int|
            0 <= k < names.len() && text::ascii_upper(#[trigger] names[k]) == y && (!guids_only
                || guid::is_guid_text(names[k])),
    decreases names.len(),
{
    if names.len() > 0 {
        let t = names.drop_last();
        lemma_with_names(start, t, guids_only, y);
        lemma_with_names_sorted(start, t, guids_only);
        let rest = with_names(start, t, guids_only);
        let x = text::ascii_upper(names.last());
        text::lemma_insert_sorted(rest, x);
        assert(names[names.len() - 1] == names.last());
        let counts = !guids_only || guid::is_guid_text(names.last());
        if counts {
            assert(text::insert_sorted(rest, x).contains(y) == (rest.contains(y) || y == x));
        }
        if exists|k: int|
            0 <= k < t.len() && text::ascii_upper(#[trigger] t[k]) == y && (!guids_only
                || guid::is_guid_text(t[k])) {
            let k = choose|k: int|
                0 <= k < t.len() && text::ascii_upper(#[trigger] t[k]) == y && (!guids_only
                    || guid::is_guid_text(t[k]));
            assert(names[k] == t[k]);
        }
        if exists|k: int|
            0 <= k < names.len() && text::ascii_upper(#[trigger] names[k]) == y && (!guids_only
                || guid::is_guid_text(names[k])) {
            let k = choose|k: int|
                0 <= k < names.len() && text::ascii_upper(#[trigger] names[k]) == y && (!guids_only
                    || guid::is_guid_text(names[k]));
            if k < t.len() {
                assert(names[k] == t[k]);
            }
        }
    }
}

/// Whether a name is among some, in upper case, and, where asked for, is that of a GUID.
pub open spec fn is_upper_of(names: Seq<Seq<char>>, guids_only: bool, y: Seq<char>) -> bool {
    exists|k: int|
        0 <= k < names.len() && text::ascii_upper(#[trigger] names[k]) == y && (!guids_only
            || guid::is_guid_text(names[k]))
}

/// The endpoints that are looked at are exactly those with a record, and those with a
/// configuration or a snapshot under the name of a GUID.
pub proof fn law_known_endpoints(r: Seq<KeyView>, files: FilesView, y: Seq<char>)
    ensures
        known_guids(r, files).contains(y) <==> {
            ||| registry::has_key(r, Hkey::LocalMachine, CHILD_APO_ROOT_REL@) && is_upper_of(
                registry::children(r, Hkey::LocalMachine, CHILD_APO_ROOT_REL@),
                false,
                y,
            )
            ||| is_upper_of(files.config_dirs, true, y)
            ||| is_upper_of(files.snapshot_names, true, y)
        },
{
    let names = registry::children(r, Hkey::LocalMachine, CHILD_APO_ROOT_REL@);
    let none = Seq::<Seq<char>>::empty();
    assert(text::strictly_sorted(none));
    assert(!none.contains(y));
    let recorded = if registry::has_key(r, Hkey::LocalMachine, CHILD_APO_ROOT_REL@) {
        with_names(none, names, false)
    } else {
        none
    };
    lemma_with_names(none, names, false, y);
    lemma_with_names_sorted(none, names, false);
    lemma_with_names(recorded, files.config_dirs, true, y);
    lemma_with_names_sorted(recorded, files.config_dirs, true);
    lemma_with_names(
        with_names(recorded, files.config_dirs, true),
        files.snapshot_names,
        true,
        y,
    );
}

proof fn lemma_record_there(
    r: Seq<KeyView>,
    files: FilesView,
    active: Seq<Seq<char>>,
    guids: Seq<Seq<char>>,
    k: int,
) -> (i: int)
    requires
        0 <= k < guids.len(),
        !active.contains(guids[k]),
        info_values(r, guids[k]).len() > 0,
    ensures
        0 <= i < records_of(r, files, active, guids).len(),
        records_of(r, files, active, guids)[i] == record_of(r, files, guids[k]),
    decreases guids.len(),
{
    let all = records_of(r, files, active, guids);
    let rest = records_of(r, files, active, guids.drop_last());
    if k < guids.len() - 1 {
        assert(guids.drop_last()[k] == guids[k]);
        let i = lemma_record_there(r, files, active, guids.drop_last(), k);
        assert(all[i] == rest[i]);
        i
    } else {
        all.len() - 1
    }
}

/// Every endpoint that is looked at, is not active and has values in its record has a
/// record among the stale ones.
pub proof fn law_records_are_complete(
    r: Seq<KeyView>,
    files: FilesView,
    active: Seq<Seq<char>>,
    g: Seq<char>,
)
    requires
        known_guids(r, files).contains(g),
        !active.contains(g),
        info_values(r, g).len() > 0,
    ensures
        stale_records(r, files, active).contains(record_of(r, files, g)),
{
    let guids = known_guids(r, files);
    let k = choose|k: int| 0 <= k < guids.len() && guids[k] == g;
    let i = lemma_record_there(r, files, active, guids, k);
    assert(stale_records(r, files, active)[i] == record_of(r, files, g));
}

/// The device of a record is the one that its endpoint names where it is still known,
/// else the one that the templates it took over belonged to.
pub proof fn law_device_of_a_record(r: Seq<KeyView>, files: FilesView, g: Seq<char>)
    ensures
        ({
            let rec = record_of(r, files, g);
            &&& rec.guid == g
            &&& rec.info_values == info_values(r, g)
            &&& matching::instance_of_guid(r, g) matches Some(id) ==> rec.device_instance_id == id
            &&& matching::instance_of_guid(r, g) is None ==> (sysfx_instance(
                identity::named_value(rec.info_values, "SysFxBackups"@),
            ) matches Some(id) ==> rec.device_instance_id == id)
            &&& (rec.config, rec.snapshot) == stale::files_of(files.entries, g)
        }),
{
}

/// What is listed of a record that is matched to an active endpoint names that endpoint,
/// and says whether the installation there is whole; one that is not matched names none.
pub proof fn law_listed_targets(r: Seq<KeyView>, active: Seq<ActiveView>, rec: RecordView)
    ensures
        ({
            let stored = identity::values_identity(rec.info_values);
            let index = active.map_values(|a: ActiveView| matching::keys_of(a));
            let v = listed(r, active, rec);
            match matching::resolved(index, rec.guid, rec.device_instance_id, stored) {
                OutcomeView::Matched(i, source) => {
                    &&& v.target_guid == Some(active[i].guid)
                    &&& v.target_name == Some(active[i].name)
                    &&& v.display_name == active[i].name
                    &&& v.target_state == if healthy(r, active[i].guid) {
                        "matched_healthy"@
                    } else {
                        "matched_partial"@
                    }
                },
                _ => {
                    &&& v.target_guid is None && v.target_name is None && v.matched_by is None
                    &&& v.display_name == rec.guid
                    &&& v.target_state == "unmatched"@
                },
            }
        }),
        listed(r, active, rec).guid == rec.guid,
        rec.config is Some <==> listed(r, active, rec).config_path is Some,
        rec.snapshot is Some <==> listed(r, active, rec).snapshot_path is Some,
{
}

/// An installation is whole only where the endpoint is there, holds the current version,
/// and has a record.
pub proof fn law_healthy(r: Seq<KeyView>, g: Seq<char>)
    ensures
        healthy(r, g) ==> info::endpoint_path(r, g) is Some,
        healthy(r, g) ==> registry::has_key(
            r,
            Hkey::LocalMachine,
            "SOFTWARE\\VxAPO\\Child APOs"@ + "\\"@ + g,
        ),
        info::endpoint_path(r, g) matches Some(p) ==> (healthy(r, g) ==> registry::as_sz(
            registry::value_at(
                r,
                Hkey::LocalMachine,
                p + "\\"@ + FX_PROPERTIES_KEY@,
                "version"@,
            ),
        ) == Some(INSTALL_VERSION@)),
{
}

} // verus!
