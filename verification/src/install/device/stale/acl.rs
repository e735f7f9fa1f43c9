//! Removing records that match no endpoint, and letting users write the files of
//! an endpoint.

use vstd::prelude::*;
use crate::error::{ErrorView, VxApoError};
use crate::guid;
use crate::install::device::slots::child;
use crate::install::device::stale;
use crate::install::device::stale::detect::{validate_guid, CHILD_APO_ROOT_REL};
use crate::install::device::stale::{snapshot_path, CONFIG_ROOT, MIGRATION_BACKUP_DIR};
use crate::registry;
use crate::registry::{join_path, Hkey, OpView, Registry};
use crate::text;
use crate::text::{concat2, concat3};

verus! {

/// Where the files of an endpoint go when its record is removed.
#[derive(Clone, Debug, PartialEq, Eq)]
pub struct ArchivePaths {
    /// The directory that is made first.
    pub dir: String,
    /// The directory of the configuration, and where its files are copied.
    pub config_dir: String,
    pub config_copy: String,
    /// The snapshot, and where it is copied.
    pub snapshot: String,
    pub snapshot_copy: String,
}

/// Where files of an endpoint are kept that are taken away.
pub open spec fn archive_dir(guid: Seq<char>) -> Seq<char> {
    MIGRATION_BACKUP_DIR@ + "\\"@ + guid
}

/// The directory of an endpoint's configuration.
pub open spec fn config_dir(guid: Seq<char>) -> Seq<char> {
    CONFIG_ROOT@ + "\\"@ + guid
}

impl ArchivePaths {
    /// Whether these are the paths of an endpoint.
    pub open spec fn are_of(&self, guid: Seq<char>) -> bool {
        &&& self.dir@ == archive_dir(guid)
        &&& self.config_dir@ == config_dir(guid)
        &&& self.config_copy@ == archive_dir(guid) + "\\config_dir"@
        &&& self.snapshot@ == stale::snapshot_file(guid)
        &&& self.snapshot_copy@ == archive_dir(guid) + "\\snapshot.json"@
    }
}

/// Where the files of an endpoint go when its record is removed.
pub fn archive_guid_files(guid: &str) -> (r: ArchivePaths)
    ensures
        r.are_of(guid@),
{
    let dir = concat3(MIGRATION_BACKUP_DIR, "\\", guid);
    ArchivePaths {
        config_dir: concat3(CONFIG_ROOT, "\\", guid),
        config_copy: concat2(dir.as_str(), "\\config_dir"),
        snapshot: snapshot_path(guid),
        snapshot_copy: concat2(dir.as_str(), "\\snapshot.json"),
        dir,
    }
}

/// What is said when the record of an endpoint could not be deleted.
pub open spec fn deletion_text(error: Seq<char>) -> Seq<char> {
    "删除旧信息区失败："@ + error
}

/// Deletes the record of an endpoint; an error where that is refused. `refused` is
/// what the system said, if it was.
pub fn delete_child_apo_key(registry: &mut Registry, guid: &str, refused: Option<&str>) -> (r:
    Result<(), VxApoError>)
    ensures
        match refused {
            None => r is Ok && registry::advanced(
                *old(registry),
                *final(registry),
                seq![OpView::DeleteTree {
                    root: Hkey::LocalMachine,
                    path: child::record_path(guid@),
                }],
            ),
            Some(error) => {
                &&& r matches Err(e) && e@ == ErrorView::Internal(deletion_text(error@))
                &&& *final(registry) == *old(registry)
            },
        },
{
    match refused {
        Some(error) => {
            let m = concat2("删除旧信息区失败：", error);
            Err(VxApoError::internal(m.as_str()))
        },
        None => {
            let path = join_path(CHILD_APO_ROOT_REL, guid);
            registry.delete_tree(Hkey::LocalMachine, path.as_str());
            Ok(())
        },
    }
}

/// Removes a record that matches no active endpoint. The result says where the
/// endpoint's files go; an error when the text is not a GUID, and where deleting the
/// record is refused, for the reason given.
pub fn cleanup_orphan(registry: &mut Registry, guid: &str, refused: Option<&str>) -> (r: Result<
    ArchivePaths,
    VxApoError,
>)
    ensures
        if !guid::is_guid_text(guid@) {
            &&& r matches Err(e) && e@ == ErrorView::Internal("无效的端点 GUID："@ + guid@)
            &&& *final(registry) == *old(registry)
        } else {
            match refused {
                None => {
                    &&& r matches Ok(paths) && paths.are_of(guid@)
                    &&& registry::advanced(
                        *old(registry),
                        *final(registry),
                        seq![OpView::DeleteTree {
                            root: Hkey::LocalMachine,
                            path: child::record_path(guid@),
                        }],
                    )
                },
                Some(error) => {
                    &&& r matches Err(e) && e@ == ErrorView::Internal(deletion_text(error@))
                    &&& *final(registry) == *old(registry)
                },
            }
        },
{
    match validate_guid(guid) {
        Ok(_) => {},
        Err(e) => {
            return Err(e);
        },
    }
    let paths = archive_guid_files(guid);
    match delete_child_apo_key(registry, guid, refused) {
        Ok(_) => Ok(paths),
        Err(e) => Err(e),
    }
}

/// The directory and the file of an endpoint that users are to be able to write;
/// an error when the text is not a GUID.
pub fn fix_config_acl(guid: &str) -> (r: Result<(String, String), VxApoError>)
    ensures
        match r {
            Ok(p) => guid::is_guid_text(guid@) && p.0@ == config_dir(guid@) && p.1@
                == stale::snapshot_file(guid@),
            Err(e) => !guid::is_guid_text(guid@) && e@ == ErrorView::Internal(
                "无效的端点 GUID："@ + guid@,
            ),
        },
{
    match validate_guid(guid) {
        Ok(_) => {},
        Err(e) => {
            return Err(e);
        },
    }
    Ok((concat3(CONFIG_ROOT, "\\", guid), snapshot_path(guid)))
}

/// What `icacls` is told, after the path, to let interactive users write there.
pub open spec fn grant_words(is_dir: bool) -> Seq<Seq<char>> {
    if is_dir {
        seq!["/grant"@, "*S-1-5-4:(OI)(CI)M"@, "/T"@, "/C"@, "/Q"@]
    } else {
        seq!["/grant"@, "*S-1-5-4:M"@, "/C"@, "/Q"@]
    }
}

/// What `icacls` is told, after the path, to let interactive users write there: in
/// a directory, all that is below it too.
pub fn grant_interactive_modify(is_dir: bool) -> (r: Vec<&'static str>)
    ensures
        r@.map_values(|s: &'static str| s@) == grant_words(is_dir),
{
    let mut r: Vec<&'static str> = Vec::new();
    r.push("/grant");
    if is_dir {
        r.push("*S-1-5-4:(OI)(CI)M");
        r.push("/T");
    } else {
        r.push("*S-1-5-4:M");
    }
    r.push("/C");
    r.push("/Q");
    assert(r@.map_values(|s: &'static str| s@) =~= grant_words(is_dir));
    r
}

} // verus!
