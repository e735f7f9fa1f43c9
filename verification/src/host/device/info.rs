//! What is known of an endpoint and of the installation on it, read from the
//! endpoint's key alone.

use vstd::prelude::*;
use crate::error::VxApoError;
use crate::install::device::endpoint;
use crate::install::device::endpoint::{query_endpoint, EndpointInfo, EndpointView};
use crate::install::device::format::{read_audio_format, AudioFormat};
use crate::install::device::identity::PROPERTIES_KEY;
use crate::install::device::info;
use crate::install::device::info::{
    CHANNEL_MASK_VALUE, DISABLE_ENHANCEMENTS_VALUE, VERSION_VALUE_NAME,
};
use crate::install::device::slots::child;
use crate::install::device::slots::read;
use crate::install::device::slots::types;
use crate::install::device::slots::types::version_is_lower;
use crate::install::device::slots::{
    get_original_post_mix, get_original_pre_mix, read_all_slots, ApoSlot, InstallMode, SlotValue,
    FX_PROPERTIES_KEY, INSTALL_VERSION,
};
use crate::registry;
use crate::registry::RegKey;
use crate::text::eq;

verus! {

/// Property: the format of the device.
pub const DEVICE_FORMAT_VALUE: &'static str = "{f19f064d-082c-4e27-bc73-6882a1bb8e4c},0";

/// Property: the format of the audio engine.
pub const ENGINE_FORMAT_VALUE: &'static str = "{3d6e1656-2e50-4c4c-8d7b-d3f7e4d1f3a9},0";

/// What is known of an endpoint and of the installation on it.
#[derive(Clone, Debug)]
pub struct DeviceInfo {
    pub endpoint: EndpointInfo,
    pub install_mode: InstallMode,
    /// What the five slots hold, by position.
    pub slots: [SlotValue; 5],
    pub format: Option<AudioFormat>,
    /// The installed version; empty when nothing is installed.
    pub installed_version: String,
}

/// The contents of what is known of a device.
pub struct DeviceView {
    pub endpoint: EndpointView,
    pub install_mode: InstallMode,
    pub slots: Seq<SlotValue>,
    pub format: Option<AudioFormat>,
    pub installed_version: Seq<char>,
}

impl View for DeviceInfo {
    type V = DeviceView;

    open spec fn view(&self) -> DeviceView {
        DeviceView {
            endpoint: self.endpoint@,
            install_mode: self.install_mode,
            slots: self.slots@,
            format: self.format,
            installed_version: self.installed_version@,
        }
    }
}

/// Whether this library is installed: a version is recorded, and one of the
/// mode's two slots holds one of its objects.
pub open spec fn installed(d: DeviceView) -> bool {
    d.installed_version.len() > 0 && (info::slot_is_own(
        d.slots,
        types::premix_of(d.install_mode),
    ) || info::slot_is_own(d.slots, types::postmix_of(d.install_mode)))
}

/// The mode that occupied slots speak for: the legacy one where only its slot
/// before mixing is occupied, then the one with the mode effect where that slot
/// is, else the default one.
pub open spec fn mode_of_slots(slots: Seq<SlotValue>) -> InstallMode {
    let sfx = child::slot_in(slots, ApoSlot::Sfx) is Guid;
    if child::slot_in(slots, ApoSlot::Lfx) is Guid && !sfx {
        InstallMode::LfxGfx
    } else if sfx && child::slot_in(slots, ApoSlot::Mfx) is Guid {
        InstallMode::SfxMfx
    } else {
        InstallMode::SfxEfx
    }
}

/// The format of an endpoint: that of the device, else that of the engine.
pub open spec fn format_at(key: RegKey) -> Option<AudioFormat> {
    let mask = registry::as_dword(key.sub_value(PROPERTIES_KEY@, CHANNEL_MASK_VALUE@));
    let device = crate::install::device::format::format_in(
        key.sub_value(PROPERTIES_KEY@, DEVICE_FORMAT_VALUE@),
        mask,
    );
    if device is Some {
        device
    } else {
        crate::install::device::format::format_in(
            key.sub_value(PROPERTIES_KEY@, ENGINE_FORMAT_VALUE@),
            mask,
        )
    }
}

/// What the key of an endpoint says of it and of the installation on it.
pub open spec fn device_of(key: RegKey) -> DeviceView {
    DeviceView {
        endpoint: endpoint::endpoint_of(key),
        install_mode: mode_of_slots(read::slots_of(key)),
        slots: read::slots_of(key),
        format: format_at(key),
        installed_version: endpoint::or_empty(
            registry::as_sz(key.sub_value(FX_PROPERTIES_KEY@, VERSION_VALUE_NAME@)),
        ),
    }
}

impl DeviceInfo {
    /// Whether this library is installed on the endpoint.
    pub fn is_installed(&self) -> (r: bool)
        ensures
            r == installed(self@),
    {
        if self.installed_version.as_str().is_empty() {
            return false;
        }
        let pre_slot = self.install_mode.premix_slot();
        let post_slot = self.install_mode.postmix_slot();
        is_vxapo_slot(&self.slots, pre_slot) || is_vxapo_slot(&self.slots, post_slot)
    }

    /// Whether the installation is of a version below the current one. A version
    /// that is no number is below none.
    pub fn can_be_upgraded(&self) -> (r: bool)
        ensures
            r == (installed(self@) && types::is_lower_version(
                self@.installed_version,
                INSTALL_VERSION@,
            )),
    {
        self.is_installed() && version_is_lower(self.installed_version.as_str(), INSTALL_VERSION)
    }

    /// Whether the legacy slots are used.
    pub fn is_experimental(&self) -> (r: bool)
        ensures
            r == (self@.install_mode == InstallMode::LfxGfx),
    {
        self.install_mode == InstallMode::LfxGfx
    }

    /// Whether enhancements are switched off on the endpoint.
    pub fn is_enhancements_disabled(&self, endpoint_key: &RegKey) -> (r: bool)
        ensures
            r == (registry::as_dword(
                endpoint_key.sub_value(FX_PROPERTIES_KEY@, DISABLE_ENHANCEMENTS_VALUE@),
            ) matches Some(n) && n != 0),
    {
        match endpoint_key.open_sub_key(FX_PROPERTIES_KEY) {
            Some(fx_key) => match fx_key.read_dword(DISABLE_ENHANCEMENTS_VALUE) {
                Some(n) => n != 0,
                None => false,
            },
            None => false,
        }
    }

    /// Whether the installation uses another mode than the default one.
    pub fn has_changes(&self) -> (r: bool)
        ensures
            r == (installed(self@) && self@.install_mode != InstallMode::SfxEfx),
    {
        self.is_installed() && self.install_mode != InstallMode::default_mode()
    }
}

/// Whether a slot holds one of this library's own objects.
pub fn is_vxapo_slot(slots: &[SlotValue; 5], slot: ApoSlot) -> (r: bool)
    ensures
        r == info::slot_is_own(slots@, slot),
{
    info::is_vxapo_slot(slots, slot)
}

/// The mode that occupied slots speak for.
pub fn detect_install_mode(slots: &[SlotValue; 5]) -> (r: InstallMode)
    ensures
        r == mode_of_slots(slots@),
{
    let sfx_has_guid = slots[ApoSlot::Sfx.index() as usize].is_guid();
    let lfx_has_guid = slots[ApoSlot::Lfx.index() as usize].is_guid();
    if lfx_has_guid && !sfx_has_guid {
        return InstallMode::LfxGfx;
    }
    if sfx_has_guid {
        if slots[ApoSlot::Mfx.index() as usize].is_guid() {
            return InstallMode::SfxMfx;
        }
        return InstallMode::SfxEfx;
    }
    InstallMode::default_mode()
}

fn read_format_for_endpoint(endpoint_key: &RegKey) -> (r: Result<Option<AudioFormat>, VxApoError>)
    ensures
        r == Ok::<Option<AudioFormat>, VxApoError>(format_at(*endpoint_key)),
{
    let props = match endpoint_key.open_sub_key(PROPERTIES_KEY) {
        Some(k) => k,
        None => {
            return Ok(None);
        },
    };
    if let Ok(Some(format)) = read_audio_format(
        &props,
        DEVICE_FORMAT_VALUE,
        Some(CHANNEL_MASK_VALUE),
    ) {
        return Ok(Some(format));
    }
    if let Ok(Some(format)) = read_audio_format(
        &props,
        ENGINE_FORMAT_VALUE,
        Some(CHANNEL_MASK_VALUE),
    ) {
        return Ok(Some(format));
    }
    Ok(None)
}

/// The installed version; empty when none is recorded.
pub fn read_install_version(endpoint_key: &RegKey) -> (r: String)
    ensures
        r@ == device_of(*endpoint_key).installed_version,
{
    match endpoint_key.open_sub_key(FX_PROPERTIES_KEY) {
        Some(fx_key) => match fx_key.read_sz(VERSION_VALUE_NAME) {
            Some(s) => s,
            None => String::new(),
        },
        None => String::new(),
    }
}

/// What the key of an endpoint says of it and of the installation on it.
pub fn query_device_info(endpoint_key: &RegKey) -> (r: Result<Option<DeviceInfo>, VxApoError>)
    ensures
        r matches Ok(Some(d)) && d@ == device_of(*endpoint_key),
{
    let endpoint = match query_endpoint(endpoint_key)? {
        Some(e) => e,
        None => {
            return Ok(None);
        },
    };
    let slots = read_all_slots(endpoint_key);
    let install_mode = detect_install_mode(&slots);
    let format = read_format_for_endpoint(endpoint_key)?;
    let installed_version = read_install_version(endpoint_key);
    Ok(Some(DeviceInfo { endpoint, install_mode, slots, format, installed_version }))
}

/// The object displaced before mixing, as text; empty if there is none.
pub fn get_pre_mix_apo_guid(endpoint_key: &RegKey, mode: InstallMode) -> (r: Result<
    String,
    VxApoError,
>)
    ensures
        r matches Ok(s) && s@ == child::original_pre_mix(read::slots_of(*endpoint_key), mode),
{
    let slots = read_all_slots(endpoint_key);
    Ok(get_original_pre_mix(&slots, mode))
}

/// The object displaced after mixing, as text; empty if there is none.
pub fn get_post_mix_apo_guid(endpoint_key: &RegKey, mode: InstallMode) -> (r: Result<
    String,
    VxApoError,
>)
    ensures
        r matches Ok(s) && s@ == child::original_post_mix(read::slots_of(*endpoint_key), mode),
{
    let slots = read_all_slots(endpoint_key);
    Ok(get_original_post_mix(&slots, mode))
}

/// Whether the endpoint has effect properties.
pub fn has_fx_properties(endpoint_key: &RegKey) -> (r: bool)
    ensures
        r == endpoint_key.has_sub(FX_PROPERTIES_KEY@),
{
    endpoint_key.open_sub_key(FX_PROPERTIES_KEY).is_some()
}

/// The mode that slots speak for uses the slot before mixing that is occupied,
/// wherever one is.
pub proof fn law_mode_uses_occupied_slot(slots: Seq<SlotValue>)
    requires
        child::slot_in(slots, ApoSlot::Sfx) is Guid || child::slot_in(slots, ApoSlot::Lfx) is Guid,
    ensures
        child::slot_in(slots, types::premix_of(mode_of_slots(slots))) is Guid,
{
}

/// The legacy mode is told where its slot before mixing alone is occupied; the mode with
/// the mode effect where both of its slots are; the default one otherwise.
pub proof fn law_mode_of_slots(slots: Seq<SlotValue>)
    requires
        slots.len() == 5,
    ensures
        mode_of_slots(slots) is LfxGfx <==> slots[0] is Guid && !(slots[2] is Guid),
        mode_of_slots(slots) is SfxMfx <==> slots[2] is Guid && slots[3] is Guid,
{
}

/// The format of the device goes before that of the engine; there is none only where
/// neither is.
pub proof fn law_device_format_first(key: RegKey)
    ensures
        ({
            let mask = registry::as_dword(
                key.sub_value(
                    PROPERTIES_KEY@,
                    "{1da5d803-d492-4edd-8c23-e0c0ffee7f0e},0"@,
                ),
            );
            let device = crate::install::device::format::format_in(
                key.sub_value(
                    PROPERTIES_KEY@,
                    "{f19f064d-082c-4e27-bc73-6882a1bb8e4c},0"@,
                ),
                mask,
            );
            let engine = crate::install::device::format::format_in(
                key.sub_value(
                    PROPERTIES_KEY@,
                    "{3d6e1656-2e50-4c4c-8d7b-d3f7e4d1f3a9},0"@,
                ),
                mask,
            );
            &&& device is Some ==> format_at(key) == device
            &&& device is None ==> format_at(key) == engine
        }),
{
}

} // verus!
