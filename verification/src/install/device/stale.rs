//! Records of installations on endpoints that are no longer there, their
//! migration to the endpoints that took their place, and their removal.
//!
//! When Windows enumerates endpoints anew, an endpoint may come back under another
//! GUID, while the record, the configuration and the snapshot of the old one stay
//! behind. A record is matched to an active endpoint, in this order, by
//!
//! 1. the endpoints that the device had before,
//! 2. the instance identifier of the old endpoint, where that is still known,
//! 3. the instance identifier in the record,
//! 4. hardware identifiers and the product name.
//!
//! A record that more than one endpoint matches is left unmatched.

pub mod acl;
pub mod detect;
pub mod matching;
pub mod migrate;
pub mod plan;

use vstd::prelude::*;
use crate::text;
use crate::text::{concat2, concat3, eq_ignore_case};

pub use acl::{cleanup_orphan, fix_config_acl};
pub use detect::list_stale_installs;
pub use migrate::migrate_install;

verus! {

/// Where the configurations of the endpoints are kept.
pub const CONFIG_ROOT: &'static str = "C:\\ProgramData\\VxAPO";

/// Where the snapshots of the endpoints are kept.
pub const SNAPSHOT_DIR: &'static str = "C:\\ProgramData\\VxAPO\\snapshots";

/// Where files are kept that a migration replaced or a removal took away.
pub const MIGRATION_BACKUP_DIR: &'static str = "C:\\ProgramData\\VxAPO\\_migration_backup";

/// What is known of a file that is there.
#[derive(Clone, Copy, Debug, PartialEq, Eq, Structural)]
pub struct FileStat {
    /// When it was last written, in milliseconds since 1970, where that is known.
    pub mtime_ms: Option<u64>,
    /// Its length in bytes.
    pub len: u64,
}

/// The files of one endpoint; what is not there is `None`.
#[derive(Clone, Debug, PartialEq, Eq)]
pub struct GuidFiles {
    pub guid: String,
    pub config: Option<FileStat>,
    pub snapshot: Option<FileStat>,
}

/// The contents of an endpoint's files.
pub struct GuidFilesView {
    pub guid: Seq<char>,
    pub config: Option<FileStat>,
    pub snapshot: Option<FileStat>,
}

impl View for GuidFiles {
    type V = GuidFilesView;

    open spec fn view(&self) -> GuidFilesView {
        GuidFilesView { guid: self.guid@, config: self.config, snapshot: self.snapshot }
    }
}

/// The files that the endpoints have on disk.
#[derive(Clone, Debug, PartialEq, Eq)]
pub struct Files {
    /// The names of the directories among the configurations.
    pub config_dirs: Vec<String>,
    /// The names of the snapshots, without their extension.
    pub snapshot_names: Vec<String>,
    /// The files of each endpoint.
    pub entries: Vec<GuidFiles>,
}

/// The contents of what is on disk.
pub struct FilesView {
    pub config_dirs: Seq<Seq<char>>,
    pub snapshot_names: Seq<Seq<char>>,
    pub entries: Seq<GuidFilesView>,
}

impl View for Files {
    type V = FilesView;

    open spec fn view(&self) -> FilesView {
        FilesView {
            config_dirs: text::texts(self.config_dirs@),
            snapshot_names: text::texts(self.snapshot_names@),
            entries: self.entries@.map_values(|e: GuidFiles| e@),
        }
    }
}

/// The files of an endpoint; names of files are told apart without case.
pub open spec fn files_of(list: Seq<GuidFilesView>, guid: Seq<char>) -> (
    Option<FileStat>,
    Option<FileStat>,
)
    decreases list.len(),
{
    if list.len() == 0 {
        (None, None)
    } else if text::eq_ci(list.last().guid, guid) {
        (list.last().config, list.last().snapshot)
    } else {
        files_of(list.drop_last(), guid)
    }
}

impl Files {
    /// The files of an endpoint: its configuration and its snapshot.
    pub fn of(&self, guid: &str) -> (r: (Option<FileStat>, Option<FileStat>))
        ensures
            r == files_of(self@.entries, guid@),
    {
        let ghost all = self@.entries;
        let mut i: usize = self.entries.len();
        assert(all.take(i as int) =~= all);
        while i > 0
            invariant
                i <= self.entries.len(),
                all == self@.entries,
                files_of(all, guid@) == files_of(all.take(i as int), guid@),
            decreases i,
        {
            i -= 1;
            let ghost t = all.take(i + 1);
            assert(t.drop_last() =~= all.take(i as int));
            assert(t.last() == self.entries@[i as int]@);
            if eq_ignore_case(self.entries[i].guid.as_str(), guid) {
                return (self.entries[i].config, self.entries[i].snapshot);
            }
        }
        (None, None)
    }
}

/// The configuration of an endpoint.
pub open spec fn config_file(guid: Seq<char>) -> Seq<char> {
    CONFIG_ROOT@ + "\\"@ + guid + "\\config.toml"@
}

/// The snapshot of an endpoint.
pub open spec fn snapshot_file(guid: Seq<char>) -> Seq<char> {
    SNAPSHOT_DIR@ + "\\"@ + guid + ".json"@
}

/// The configuration of an endpoint.
pub fn config_path(guid: &str) -> (r: String)
    ensures
        r@ == config_file(guid@),
{
    let dir = concat3(CONFIG_ROOT, "\\", guid);
    concat2(dir.as_str(), "\\config.toml")
}

/// The snapshot of an endpoint.
pub fn snapshot_path(guid: &str) -> (r: String)
    ensures
        r@ == snapshot_file(guid@),
{
    let stem = concat3(SNAPSHOT_DIR, "\\", guid);
    concat2(stem.as_str(), ".json")
}

/// A record of an installation on an endpoint that is not active, and where it
/// could go.
#[derive(Clone, Debug, PartialEq, Eq)]
pub struct StaleInstall {
    pub guid: String,
    pub device_instance_id: String,
    pub display_name: String,
    /// How the target was found, where there is one.
    pub matched_by: Option<String>,
    pub config_path: Option<String>,
    pub config_mtime_ms: Option<u64>,
    pub snapshot_path: Option<String>,
    pub snapshot_mtime_ms: Option<u64>,
    pub premix_slot: Option<String>,
    pub postmix_slot: Option<String>,
    pub inferred_mode: String,
    pub has_child_backup: bool,
    pub has_sysfx_backup: bool,
    pub target_guid: Option<String>,
    pub target_name: Option<String>,
    pub target_state: String,
}

/// The contents of a stale installation.
pub struct StaleView {
    pub guid: Seq<char>,
    pub device_instance_id: Seq<char>,
    pub display_name: Seq<char>,
    pub matched_by: Option<Seq<char>>,
    pub config_path: Option<Seq<char>>,
    pub config_mtime_ms: Option<u64>,
    pub snapshot_path: Option<Seq<char>>,
    pub snapshot_mtime_ms: Option<u64>,
    pub premix_slot: Option<Seq<char>>,
    pub postmix_slot: Option<Seq<char>>,
    pub inferred_mode: Seq<char>,
    pub has_child_backup: bool,
    pub has_sysfx_backup: bool,
    pub target_guid: Option<Seq<char>>,
    pub target_name: Option<Seq<char>>,
    pub target_state: Seq<char>,
}

/// The text that may be missing.
pub open spec fn opt_text(v: Option<String>) -> Option<Seq<char>> {
    match v {
        Some(s) => Some(s@),
        None => None,
    }
}

impl View for StaleInstall {
    type V = StaleView;

    open spec fn view(&self) -> StaleView {
        StaleView {
            guid: self.guid@,
            device_instance_id: self.device_instance_id@,
            display_name: self.display_name@,
            matched_by: opt_text(self.matched_by),
            config_path: opt_text(self.config_path),
            config_mtime_ms: self.config_mtime_ms,
            snapshot_path: opt_text(self.snapshot_path),
            snapshot_mtime_ms: self.snapshot_mtime_ms,
            premix_slot: opt_text(self.premix_slot),
            postmix_slot: opt_text(self.postmix_slot),
            inferred_mode: self.inferred_mode@,
            has_child_backup: self.has_child_backup,
            has_sysfx_backup: self.has_sysfx_backup,
            target_guid: opt_text(self.target_guid),
            target_name: opt_text(self.target_name),
            target_state: self.target_state@,
        }
    }
}

/// What a migration did.
#[derive(Clone, Debug, PartialEq, Eq)]
pub struct MigrationReport {
    pub success: bool,
    pub target_guid: String,
    pub config_from: Option<String>,
    pub snapshot_from: Option<String>,
    pub config_migrated: bool,
    pub snapshot_migrated: bool,
    pub install_repaired: bool,
    pub removed_guids: Vec<String>,
    pub warnings: Vec<String>,
}

/// The contents of a migration report.
pub struct ReportView {
    pub success: bool,
    pub target_guid: Seq<char>,
    pub config_from: Option<Seq<char>>,
    pub snapshot_from: Option<Seq<char>>,
    pub config_migrated: bool,
    pub snapshot_migrated: bool,
    pub install_repaired: bool,
    pub removed_guids: Seq<Seq<char>>,
    pub warnings: Seq<Seq<char>>,
}

impl View for MigrationReport {
    type V = ReportView;

    open spec fn view(&self) -> ReportView {
        ReportView {
            success: self.success,
            target_guid: self.target_guid@,
            config_from: opt_text(self.config_from),
            snapshot_from: opt_text(self.snapshot_from),
            config_migrated: self.config_migrated,
            snapshot_migrated: self.snapshot_migrated,
            install_repaired: self.install_repaired,
            removed_guids: text::texts(self.removed_guids@),
            warnings: text::texts(self.warnings@),
        }
    }
}

} // verus!
