//! Taking over the default effects of an endpoint's device, and giving them back.

use vstd::prelude::*;
use crate::error::{ErrorView, VxApoError};
use crate::install::device::identity;
use crate::install::device::identity::PROPERTIES_KEY;
use crate::install::device::slots::child;
use crate::install::device::slots::child::CHILD_APO_PATH_ROOT;
use crate::install::device::slots::{InstallMode, FX_PROPERTIES_KEY};
use crate::install::device::sysfx;
use crate::install::device::sysfx::{
    changes_to_backups, decode_backups, encode_backups, endpoint_identity, find_msfx_entries,
    is_ms_mode_clsid, is_vxapo_clsid, make_changes, plan_msfx_restore, plan_msfx_restore_defaults,
    plan_msfx_takeover, BackupView, ChangeView, SysFxBackup, SysFxChange,
    PKEY_AUDIO_ENDPOINT_ASSOCIATION, PKEY_DEVICE_INSTANCE_ID, PKEY_FX_MODE_EFFECT_CLSID,
    SYSFX_BACKUP_VALUE,
};
use crate::install::selector::operation::helpers::split_hklm_path;
use crate::install::selector::operation::InstallConfig;
use crate::registry;
use crate::registry::{join_path, Hkey, KeyView, OpView, RegKey, RegValue, Registry};

verus! {

/// The templates of the device of the endpoint at a place.
pub open spec fn endpoint_templates(r: Seq<KeyView>, endpoint_path: Seq<char>) -> Seq<Seq<char>> {
    let props = registry::join(endpoint_path, PROPERTIES_KEY@);
    sysfx::msfx_entries(
        r,
        sysfx::held(r, props, PKEY_DEVICE_INSTANCE_ID@),
        sysfx::held(r, props, PKEY_AUDIO_ENDPOINT_ASSOCIATION@),
    )
}

/// The change that removes a mode effect of Microsoft's, or an own one, from the
/// endpoint itself, where the mode does not use it.
pub open spec fn endpoint_mode_change(
    r: Seq<KeyView>,
    fx_path: Seq<char>,
    mode: InstallMode,
) -> Seq<ChangeView> {
    let effect = sysfx::held(r, fx_path, PKEY_FX_MODE_EFFECT_CLSID@);
    sysfx::change_if(
        mode != InstallMode::SfxMfx && (sysfx::ms_mode(effect) || sysfx::own(effect)),
        fx_path,
        PKEY_FX_MODE_EFFECT_CLSID@,
        effect,
        None,
    )
}

/// The changes that take over the default effects of an endpoint's device.
pub open spec fn takeover_changes(
    r: Seq<KeyView>,
    endpoint_path: Seq<char>,
    config: InstallConfig,
) -> Seq<ChangeView> {
    sysfx::takeover_plan(
        r,
        endpoint_templates(r, endpoint_path),
        config.install_mode,
        config.install_premix,
        config.install_postmix,
    ) + endpoint_mode_change(
        r,
        registry::join(endpoint_path, FX_PROPERTIES_KEY@),
        config.install_mode,
    )
}

/// The lines that keep what changes found.
pub open spec fn kept_lines(list: Seq<ChangeView>) -> Seq<Seq<char>> {
    sysfx::backups_of(list).map_values(|b: BackupView| sysfx::backup_line(b))
}

/// The registry changes that take over the default effects of an endpoint's
/// device, and keep in its record what they found.
pub open spec fn takeover_ops(
    r: Seq<KeyView>,
    device_guid: Seq<char>,
    endpoint_path: Seq<char>,
    config: InstallConfig,
) -> Seq<OpView> {
    let list = takeover_changes(r, endpoint_path, config);
    sysfx::change_ops(list) + identity::op_if(
        list.len() > 0,
        identity::op_set_multi(child::record_path(device_guid), SYSFX_BACKUP_VALUE@, kept_lines(list)),
    )
}

/// Where a backup of every change was kept, there is one as soon as there is a
/// change.
proof fn lemma_backups_of_len(list: Seq<ChangeView>)
    ensures
        (sysfx::backups_of(list).len() > 0) == (list.len() > 0),
    decreases list.len(),
{
    if list.len() > 0 {
        lemma_backups_of_len(list.drop_last());
        sysfx::lemma_backup_index_range(
            sysfx::backups_of(list.drop_last()),
            list.last().key_path,
        );
    }
}

/// Takes over the default effects of an endpoint's device, and keeps in the
/// endpoint's record what they were. An error when the endpoint is missing.
pub fn take_over_sysfx(
    registry: &mut Registry,
    device_guid: &str,
    endpoint_path: &str,
    config: &InstallConfig,
) -> (r: Result<(), VxApoError>)
    ensures
        r is Ok == registry::has_key(old(registry)@, Hkey::LocalMachine, endpoint_path@),
        r matches Err(e) ==> {
            &&& e@ == ErrorView::KeyNotFound(endpoint_path@)
            &&& *final(registry) == *old(registry)
        },
        r is Ok ==> registry::advanced(
            *old(registry),
            *final(registry),
            takeover_ops(old(registry)@, device_guid@, endpoint_path@, *config),
        ),
{
    let ghost r0 = *registry;
    proof {
        registry::lemma_advanced_refl(r0);
        sysfx::lemma_entries_present(
            r0@,
            sysfx::held(
                r0@,
                registry::join(endpoint_path@, PROPERTIES_KEY@),
                PKEY_DEVICE_INSTANCE_ID@,
            ),
            sysfx::held(
                r0@,
                registry::join(endpoint_path@, PROPERTIES_KEY@),
                PKEY_AUDIO_ENDPOINT_ASSOCIATION@,
            ),
        );
    }
    let (device_id, node_type) = match RegKey::open(registry, Hkey::LocalMachine, endpoint_path) {
        Some(key) => endpoint_identity(&key),
        None => {
            return Err(VxApoError::KeyNotFound(endpoint_path.to_owned()));
        },
    };
    let paths = match find_msfx_entries(
        registry,
        match &device_id {
            Some(s) => Some(s.as_str()),
            None => None,
        },
        match &node_type {
            Some(s) => Some(s.as_str()),
            None => None,
        },
    ) {
        Ok(p) => p,
        Err(e) => {
            return Err(e);
        },
    };
    let planned = match plan_msfx_takeover(
        registry,
        paths.as_slice(),
        config.install_mode,
        config.install_premix,
        config.install_postmix,
    ) {
        Ok(p) => p,
        Err(e) => {
            return Err(e);
        },
    };
    let mut list = planned;
    let ghost planned_view = sysfx::changes(list@);
    let fx_path = join_path(endpoint_path, FX_PROPERTIES_KEY);
    if config.install_mode != InstallMode::SfxMfx {
        match registry.get_sz(Hkey::LocalMachine, fx_path.as_str(), PKEY_FX_MODE_EFFECT_CLSID) {
            Some(mode) => {
                if is_ms_mode_clsid(mode.as_str()) || is_vxapo_clsid(mode.as_str()) {
                    list.push(
                        SysFxChange {
                            key_path: fx_path.clone(),
                            value_name: PKEY_FX_MODE_EFFECT_CLSID.to_owned(),
                            original: Some(mode),
                            target: None,
                        },
                    );
                }
            },
            None => {},
        }
    }
    let ghost all = takeover_changes(r0@, endpoint_path@, *config);
    assert(sysfx::changes(list@) =~= all);
    make_changes(registry, list.as_slice());
    let ghost r1 = *registry;
    let kept = changes_to_backups(list.as_slice());
    proof {
        lemma_backups_of_len(all);
        assert(sysfx::backups(kept@).len() == kept@.len());
        registry::lemma_advanced_refl(r1);
    }
    let ghost op = identity::op_set_multi(
        child::record_path(device_guid@),
        SYSFX_BACKUP_VALUE@,
        kept_lines(all),
    );
    if kept.len() > 0 {
        let info_key = join_path(CHILD_APO_PATH_ROOT, device_guid);
        proof {
            child::lemma_record_path(device_guid@);
        }
        match split_hklm_path(info_key.as_str()) {
            Ok((root, path)) => {
                let lines = encode_backups(kept.as_slice());
                registry.set_value(
                    root,
                    path.as_str(),
                    SYSFX_BACKUP_VALUE,
                    RegValue::MultiSz(lines),
                );
            },
            Err(_) => {},
        }
    }
    proof {
        registry::lemma_advanced_trans(
            r0,
            r1,
            *registry,
            sysfx::change_ops(all),
            identity::op_if(all.len() > 0, op),
        );
    }
    Ok(())
}

/// What an endpoint's record keeps of the default effects.
pub open spec fn kept_effects(r: Seq<KeyView>, device_guid: Seq<char>) -> Seq<BackupView> {
    match registry::as_multi(
        registry::value_at(
            r,
            Hkey::LocalMachine,
            child::record_path(device_guid),
            SYSFX_BACKUP_VALUE@,
        ),
    ) {
        Some(lines) => sysfx::line_backups(lines),
        None => Seq::empty(),
    }
}

/// The changes that give back the default effects of an endpoint's device: what
/// its record keeps, or Microsoft's where it keeps nothing.
pub open spec fn give_back_changes(
    r: Seq<KeyView>,
    device_guid: Seq<char>,
    endpoint_path: Seq<char>,
) -> Seq<ChangeView> {
    let kept = kept_effects(r, device_guid);
    if kept.len() > 0 {
        sysfx::restore_plan(r, kept)
    } else {
        sysfx::defaults_plan(r, endpoint_templates(r, endpoint_path))
    }
}

/// Whether everything is there that giving back the default effects needs: each
/// template that the record keeps, or the endpoint where it keeps nothing.
pub open spec fn can_give_back(
    r: Seq<KeyView>,
    device_guid: Seq<char>,
    endpoint_path: Seq<char>,
) -> bool {
    let kept = kept_effects(r, device_guid);
    if kept.len() > 0 {
        sysfx::all_present(r, sysfx::backup_paths(kept))
    } else {
        registry::has_key(r, Hkey::LocalMachine, endpoint_path)
    }
}

fn read_kept_effects(registry: &Registry, device_guid: &str) -> (r: Vec<SysFxBackup>)
    ensures
        sysfx::backups(r@) == kept_effects(registry@, device_guid@),
{
    let info_key = join_path(CHILD_APO_PATH_ROOT, device_guid);
    proof {
        child::lemma_record_path(device_guid@);
    }
    match split_hklm_path(info_key.as_str()) {
        Ok((root, path)) => match RegKey::open(registry, root, path.as_str()) {
            Some(key) => match key.read_multi_value(SYSFX_BACKUP_VALUE) {
                Some(lines) => {
                    return decode_backups(lines.as_slice());
                },
                None => {},
            },
            None => {},
        },
        Err(_) => {},
    }
    let r: Vec<SysFxBackup> = Vec::new();
    assert(sysfx::backups(r@) =~= Seq::empty());
    r
}

/// What keeps the default effects from being given back: the first template that
/// the record keeps and that is missing or, where it keeps none, the endpoint.
pub open spec fn is_give_back_error(
    r: Seq<KeyView>,
    device_guid: Seq<char>,
    endpoint_path: Seq<char>,
    error: ErrorView,
) -> bool {
    let kept = kept_effects(r, device_guid);
    if kept.len() > 0 {
        error matches ErrorView::KeyNotFound(p) && sysfx::first_missing(
            r,
            sysfx::backup_paths(kept),
            p,
        )
    } else {
        error == ErrorView::KeyNotFound(endpoint_path)
    }
}

/// Gives back the default effects of an endpoint's device. An error, and no
/// change, when a template that the record keeps is missing, or the endpoint
/// where the record keeps nothing.
pub fn restore_sysfx(registry: &mut Registry, device_guid: &str, endpoint_path: &str) -> (r: Result<
    (),
    VxApoError,
>)
    ensures
        r is Ok == can_give_back(old(registry)@, device_guid@, endpoint_path@),
        r is Ok ==> registry::advanced(
            *old(registry),
            *final(registry),
            sysfx::change_ops(give_back_changes(old(registry)@, device_guid@, endpoint_path@)),
        ),
        r is Err ==> *final(registry) == *old(registry),
        r matches Err(e) ==> is_give_back_error(
            old(registry)@,
            device_guid@,
            endpoint_path@,
            e@,
        ),
{
    let ghost r0 = *registry;
    let kept = read_kept_effects(registry, device_guid);
    proof {
        assert(sysfx::backups(kept@).len() == kept@.len());
        sysfx::lemma_entries_present(
            r0@,
            sysfx::held(
                r0@,
                registry::join(endpoint_path@, PROPERTIES_KEY@),
                PKEY_DEVICE_INSTANCE_ID@,
            ),
            sysfx::held(
                r0@,
                registry::join(endpoint_path@, PROPERTIES_KEY@),
                PKEY_AUDIO_ENDPOINT_ASSOCIATION@,
            ),
        );
    }
    let list = if kept.len() > 0 {
        match plan_msfx_restore(registry, kept.as_slice()) {
            Ok(p) => p,
            Err(e) => {
                return Err(e);
            },
        }
    } else {
        let (device_id, node_type) = match RegKey::open(
            registry,
            Hkey::LocalMachine,
            endpoint_path,
        ) {
            Some(key) => endpoint_identity(&key),
            None => {
                return Err(VxApoError::KeyNotFound(endpoint_path.to_owned()));
            },
        };
        let paths = match find_msfx_entries(
            registry,
            match &device_id {
                Some(s) => Some(s.as_str()),
                None => None,
            },
            match &node_type {
                Some(s) => Some(s.as_str()),
                None => None,
            },
        ) {
            Ok(p) => p,
            Err(e) => {
                return Err(e);
            },
        };
        match plan_msfx_restore_defaults(registry, paths.as_slice()) {
            Ok(p) => p,
            Err(e) => {
                return Err(e);
            },
        }
    };
    make_changes(registry, list.as_slice());
    Ok(())
}

} // verus!
