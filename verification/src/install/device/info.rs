//! What is known of an endpoint and of the installation on it, put together.

use vstd::prelude::*;
use crate::object::vx_reg_props;
use crate::install::device::slots::child;
use crate::text;
use crate::registry;
use crate::install::device::slots::types;
use crate::install::device::slots::types::version_is_lower;
use crate::install::device::slots::read;
use crate::install::device::endpoint;
use crate::error::{ErrorView, VxApoError};
use crate::install::device::endpoint::{
    query_endpoint, EndpointInfo, EndpointState, EndpointView, Flow,
};
use crate::install::device::format::{read_audio_format, AudioFormat};
use crate::install::device::identity::PROPERTIES_KEY;
use crate::install::device::slots::{
    detect_install_mode as mode_for_endpoint, read_all_slots, ApoSlot, InstallMode, SlotValue,
    FX_PROPERTIES_KEY, INSTALL_VERSION, INSTALL_VERSION_LEGACY,
};
use crate::object::vx_reg_props::{clsid_post_mix, clsid_pre_mix, own_clsid};
use crate::registry::{join_path, Hkey, KeyView, RegKey, Registry};
use crate::text::eq;

verus! {

/// The value of the effect properties that holds the installed version.
pub const VERSION_VALUE_NAME: &'static str = "version";

/// The place of the playback endpoints.
pub const RENDER_PATH: &'static str =
    "SOFTWARE\\Microsoft\\Windows\\CurrentVersion\\MMDevices\\Audio\\Render";

/// The place of the recording endpoints.
pub const CAPTURE_PATH: &'static str =
    "SOFTWARE\\Microsoft\\Windows\\CurrentVersion\\MMDevices\\Audio\\Capture";

/// Property: the format of the device.
pub const DEVICE_FORMAT_VALUE: &'static str = "{f19f064d-82c0-4e00-bce4-7f12f211c8f2},0";

/// Property: the speaker positions of the endpoint.
pub const CHANNEL_MASK_VALUE: &'static str = "{1da5d803-d492-4edd-8c23-e0c0ffee7f0e},0";

/// Property: present on Bluetooth devices.
pub const BLUETOOTH_CONTAINER_VALUE: &'static str = "{b3f8fa53-0004-438e-9003-51a46e139bfc},41";

/// The value of the effect properties by which enhancements are switched off.
pub const DISABLE_ENHANCEMENTS_VALUE: &'static str = "DisableEnhancements";

/// What is known of an endpoint and of the installation on it.
#[derive(Clone, Debug)]
pub struct DeviceInfo {
    pub endpoint: Option<EndpointInfo>,
    pub install_mode: InstallMode,
    /// What the five slots hold, by position.
    pub slots: [SlotValue; 5],
    pub format: Option<AudioFormat>,
    /// The installed version; empty when nothing is installed.
    pub installed_version: String,
}

/// The contents of what is known of a device.
pub struct DeviceView {
    pub endpoint: Option<EndpointView>,
    pub install_mode: InstallMode,
    pub slots: Seq<SlotValue>,
    pub format: Option<AudioFormat>,
    pub installed_version: Seq<char>,
}

impl View for DeviceInfo {
    type V = DeviceView;

    open spec fn view(&self) -> DeviceView {
        DeviceView {
            endpoint: match self.endpoint {
                Some(e) => Some(e@),
                None => None,
            },
            install_mode: self.install_mode,
            slots: self.slots@,
            format: self.format,
            installed_version: self.installed_version@,
        }
    }
}

/// The contents of a list of devices.
pub open spec fn devices(v: Seq<DeviceInfo>) -> Seq<DeviceView> {
    v.map_values(|d: DeviceInfo| d@)
}

/// Whether a slot holds one of this library's own objects.
pub open spec fn slot_is_own(slots: Seq<SlotValue>, slot: ApoSlot) -> bool {
    child::slot_in(slots, slot) matches SlotValue::Guid(g) && vx_reg_props::is_own_clsid(g)
}

/// Whether this library is installed: a version is recorded, and one of the
/// mode's two slots holds one of its objects.
pub open spec fn installed(d: DeviceView) -> bool {
    d.installed_version.len() > 0 && (slot_is_own(d.slots, types::premix_of(d.install_mode))
        || slot_is_own(d.slots, types::postmix_of(d.install_mode)))
}

/// Whether a slot holds one of this library's own objects.
pub fn is_vxapo_slot(slots: &[SlotValue; 5], slot: ApoSlot) -> (r: bool)
    ensures
        r == slot_is_own(slots@, slot),
{
    match slots[slot.index() as usize] {
        SlotValue::Guid(g) => own_clsid(&g),
        _ => false,
    }
}

impl DeviceInfo {
    /// Whether this library is installed on the endpoint.
    pub fn is_installed(&self) -> (r: bool)
        ensures
            r == installed(self@),
    {
        if self.installed_version.as_str().is_empty() {
            return false;
        }
        let pre_slot = self.install_mode.premix_slot();
        let post_slot = self.install_mode.postmix_slot();
        is_vxapo_slot(&self.slots, pre_slot) || is_vxapo_slot(&self.slots, post_slot)
    }

    /// Whether the installation is of a version below the current one. A version
    /// that is no number is below none.
    pub fn can_be_upgraded(&self) -> (r: bool)
        ensures
            r == (installed(self@) && types::is_lower_version(
                self@.installed_version,
                INSTALL_VERSION@,
            )),
    {
        self.is_installed() && version_is_lower(self.installed_version.as_str(), INSTALL_VERSION)
    }

    /// Whether the legacy slots are used.
    pub fn is_experimental(&self) -> (r: bool)
        ensures
            r == (self@.install_mode == InstallMode::LfxGfx),
    {
        self.install_mode == InstallMode::LfxGfx
    }

    /// Whether enhancements are switched off on the endpoint.
    pub fn is_enhancements_disabled(&self, endpoint_key: &RegKey) -> (r: bool)
        ensures
            r == (registry::as_dword(
                endpoint_key.sub_value(FX_PROPERTIES_KEY@, DISABLE_ENHANCEMENTS_VALUE@),
            ) matches Some(n) && n != 0),
    {
        match endpoint_key.open_sub_key(FX_PROPERTIES_KEY) {
            Some(fx_key) => match fx_key.read_dword(DISABLE_ENHANCEMENTS_VALUE) {
                Some(n) => n != 0,
                None => false,
            },
            None => false,
        }
    }

    /// Whether the installation uses another mode than the default one.
    pub fn has_changes(&self) -> (r: bool)
        ensures
            r == (installed(self@) && self@.install_mode != InstallMode::SfxEfx),
    {
        self.is_installed() && self.install_mode != InstallMode::default_mode()
    }

    /// Whether the installed version is the legacy one.
    pub fn is_legacy(&self) -> (r: bool)
        ensures
            r == (self@.installed_version == INSTALL_VERSION_LEGACY@),
    {
        eq(self.installed_version.as_str(), INSTALL_VERSION_LEGACY)
    }

    /// Whether the endpoint is disabled.
    pub fn is_disabled(&self) -> (r: bool)
        ensures
            r == (self@.endpoint matches Some(e) && e.state == EndpointState::Disabled),
    {
        match &self.endpoint {
            Some(e) => e.state == EndpointState::Disabled,
            None => false,
        }
    }

    /// Whether the endpoint is not present.
    pub fn is_unplugged(&self) -> (r: bool)
        ensures
            r == (self@.endpoint matches Some(e) && e.state == EndpointState::NotPresent),
    {
        match &self.endpoint {
            Some(e) => e.state == EndpointState::NotPresent,
            None => false,
        }
    }
}

/// The mode in which this library is installed: the one whose two slots hold its
/// two objects, the default one if there is none.
pub open spec fn installed_mode(slots: Seq<SlotValue>) -> InstallMode {
    let pre = |slot: ApoSlot| child::slot_in(slots, slot) == SlotValue::Guid(clsid_pre_mix());
    let post = |slot: ApoSlot| child::slot_in(slots, slot) == SlotValue::Guid(clsid_post_mix());
    if pre(ApoSlot::Lfx) && post(ApoSlot::Gfx) {
        InstallMode::LfxGfx
    } else if pre(ApoSlot::Sfx) && post(ApoSlot::Mfx) {
        InstallMode::SfxMfx
    } else {
        InstallMode::SfxEfx
    }
}

/// Whether a slot value is the object that processes before mixing.
fn is_vxapo_pre(slot: &SlotValue) -> (r: bool)
    ensures
        r == (*slot == SlotValue::Guid(clsid_pre_mix())),
{
    match slot {
        SlotValue::Guid(g) => *g == clsid_pre_mix(),
        _ => false,
    }
}

/// Whether a slot value is the object that processes after mixing.
fn is_vxapo_post(slot: &SlotValue) -> (r: bool)
    ensures
        r == (*slot == SlotValue::Guid(clsid_post_mix())),
{
    match slot {
        SlotValue::Guid(g) => *g == clsid_post_mix(),
        _ => false,
    }
}

/// The mode in which this library is installed.
pub fn detect_install_mode(slots: &[SlotValue; 5]) -> (r: InstallMode)
    ensures
        r == installed_mode(slots@),
{
    if is_vxapo_pre(&slots[0]) && is_vxapo_post(&slots[1]) {
        return InstallMode::LfxGfx;
    }
    if is_vxapo_pre(&slots[2]) && is_vxapo_post(&slots[3]) {
        return InstallMode::SfxMfx;
    }
    InstallMode::default_mode()
}

/// What the key of an endpoint says of it and of the installation on it.
pub open spec fn device_of(key: RegKey) -> DeviceView {
    device_at(key.registry@, key.root, key.path@)
}

/// What the key at a place says of the endpoint there and of the installation on
/// it.
pub open spec fn device_at(r: Seq<KeyView>, root: Hkey, path: Seq<char>) -> DeviceView {
    let props = registry::join(path, PROPERTIES_KEY@);
    let fx = registry::join(path, FX_PROPERTIES_KEY@);
    let slots = read::slots_at(r, root, path);
    DeviceView {
        endpoint: Some(endpoint::endpoint_at(r, root, path)),
        install_mode: installed_mode(slots),
        slots,
        format: crate::install::device::format::format_in(
            registry::value_at(r, root, props, DEVICE_FORMAT_VALUE@),
            registry::as_dword(registry::value_at(r, root, props, CHANNEL_MASK_VALUE@)),
        ),
        installed_version: endpoint::or_empty(
            registry::as_sz(registry::value_at(r, root, fx, VERSION_VALUE_NAME@)),
        ),
    }
}

fn read_format_for_endpoint(endpoint_key: &RegKey) -> (r: Result<Option<AudioFormat>, VxApoError>)
    ensures
        r == Ok::<Option<AudioFormat>, VxApoError>(device_of(*endpoint_key).format),
{
    match endpoint_key.open_sub_key(PROPERTIES_KEY) {
        Some(props) => read_audio_format(&props, DEVICE_FORMAT_VALUE, Some(CHANNEL_MASK_VALUE)),
        None => Ok(None),
    }
}

/// The installed version; empty when none is recorded.
pub fn read_install_version(endpoint_key: &RegKey) -> (r: String)
    ensures
        r@ == device_of(*endpoint_key).installed_version,
{
    match endpoint_key.open_sub_key(FX_PROPERTIES_KEY) {
        Some(fx_key) => match fx_key.read_sz(VERSION_VALUE_NAME) {
            Some(s) => s,
            None => String::new(),
        },
        None => String::new(),
    }
}

/// What the key of an endpoint says of it and of the installation on it.
pub fn query_device_info(endpoint_key: &RegKey) -> (r: Result<Option<DeviceInfo>, VxApoError>)
    ensures
        r matches Ok(Some(d)) && d@ == device_of(*endpoint_key),
{
    let endpoint = query_endpoint(endpoint_key)?;
    let slots = read_all_slots(endpoint_key);
    let install_mode = detect_install_mode(&slots);
    let format = read_format_for_endpoint(endpoint_key)?;
    let installed_version = read_install_version(endpoint_key);
    Ok(Some(DeviceInfo { endpoint, install_mode, slots, format, installed_version }))
}

/// Whether the endpoint has effect properties.
pub fn has_fx_properties(endpoint_key: &RegKey) -> (r: bool)
    ensures
        r == endpoint_key.has_sub(FX_PROPERTIES_KEY@),
{
    endpoint_key.open_sub_key(FX_PROPERTIES_KEY).is_some()
}

/// The mode that the endpoint at a place calls for.
pub open spec fn mode_at(
    r: Seq<KeyView>,
    root: Hkey,
    path: Seq<char>,
    is_windows_8_1_or_newer: bool,
) -> InstallMode {
    read::mode_for(
        is_windows_8_1_or_newer,
        read::slots_at(r, root, path),
        registry::value_at(
            r,
            root,
            registry::join(path, PROPERTIES_KEY@),
            BLUETOOTH_CONTAINER_VALUE@,
        ) is Some,
    )
}

/// The mode that an endpoint calls for, given whether the system is Windows 8.1
/// or newer.
pub fn detect_mode_for_device(endpoint_key: &RegKey, is_windows_8_1_or_newer: bool) -> (r:
    InstallMode)
    ensures
        r == mode_at(
            endpoint_key.registry@,
            endpoint_key.root,
            endpoint_key.path@,
            is_windows_8_1_or_newer,
        ),
{
    let slots = read_all_slots(endpoint_key);
    let has_bluetooth = match endpoint_key.open_sub_key(PROPERTIES_KEY) {
        Some(p) => p.read_value(BLUETOOTH_CONTAINER_VALUE).is_some(),
        None => false,
    };
    mode_for_endpoint(is_windows_8_1_or_newer, &slots, has_bluetooth)
}

/// The place of an endpoint: among the playback endpoints, else among the
/// recording endpoints.
pub open spec fn endpoint_path(r: Seq<KeyView>, device_guid: Seq<char>) -> Option<Seq<char>> {
    let render = registry::join(RENDER_PATH@, device_guid);
    let capture = registry::join(CAPTURE_PATH@, device_guid);
    if registry::has_key(r, Hkey::LocalMachine, render) {
        Some(render)
    } else if registry::has_key(r, Hkey::LocalMachine, capture) {
        Some(capture)
    } else {
        None
    }
}

/// The place of an endpoint; an error when there is no such endpoint.
pub fn find_endpoint_path(registry: &Registry, device_guid: &str) -> (r: Result<
    String,
    VxApoError,
>)
    ensures
        match r {
            Ok(p) => endpoint_path(registry@, device_guid@) == Some(p@),
            Err(e) => endpoint_path(registry@, device_guid@) is None && e@
                == ErrorView::DeviceNotFound(device_guid@),
        },
{
    let render = join_path(RENDER_PATH, device_guid);
    if registry.holds_key(Hkey::LocalMachine, render.as_str()) {
        return Ok(render);
    }
    let capture = join_path(CAPTURE_PATH, device_guid);
    if registry.holds_key(Hkey::LocalMachine, capture.as_str()) {
        return Ok(capture);
    }
    Err(VxApoError::device_not_found(device_guid))
}

/// Whether an endpoint with this GUID is found from a list of its kind.
pub open spec fn listed(r: Seq<KeyView>, root_path: Seq<char>, device_guid: Seq<char>) -> bool {
    registry::has_key(r, Hkey::LocalMachine, root_path) && registry::has_key(
        r,
        Hkey::LocalMachine,
        registry::join(root_path, device_guid),
    )
}

/// The mode that an endpoint calls for, by its GUID.
pub open spec fn mode_for_guid(
    r: Seq<KeyView>,
    device_guid: Seq<char>,
    is_windows_8_1_or_newer: bool,
) -> InstallMode {
    if listed(r, RENDER_PATH@, device_guid) {
        mode_at(
            r,
            Hkey::LocalMachine,
            registry::join(RENDER_PATH@, device_guid),
            is_windows_8_1_or_newer,
        )
    } else if listed(r, CAPTURE_PATH@, device_guid) {
        mode_at(
            r,
            Hkey::LocalMachine,
            registry::join(CAPTURE_PATH@, device_guid),
            is_windows_8_1_or_newer,
        )
    } else {
        InstallMode::SfxEfx
    }
}

/// The mode that an endpoint calls for, by its GUID; the default mode when there
/// is no such endpoint.
pub fn detect_mode_for_guid(
    registry: &Registry,
    device_guid: &str,
    is_windows_8_1_or_newer: bool,
) -> (r: InstallMode)
    ensures
        r == mode_for_guid(registry@, device_guid@, is_windows_8_1_or_newer),
{
    match RegKey::open(registry, Hkey::LocalMachine, RENDER_PATH) {
        Some(root) => match root.open_sub_key(device_guid) {
            Some(key) => {
                return detect_mode_for_device(&key, is_windows_8_1_or_newer);
            },
            None => {},
        },
        None => {},
    }
    match RegKey::open(registry, Hkey::LocalMachine, CAPTURE_PATH) {
        Some(root) => match root.open_sub_key(device_guid) {
            Some(key) => {
                return detect_mode_for_device(&key, is_windows_8_1_or_newer);
            },
            None => {},
        },
        None => {},
    }
    InstallMode::default_mode()
}

// ---------------------------------------------------------------------------
// Enumeration
// ---------------------------------------------------------------------------
/// A device of a kind: its endpoint has the direction of that kind, and the given
/// GUID unless it has one of its own.
pub open spec fn as_listed(d: DeviceView, name: Seq<char>, flow: Flow) -> DeviceView {
    match d.endpoint {
        Some(e) => DeviceView {
            endpoint: Some(
                EndpointView {
                    endpoint_guid: if e.endpoint_guid.len() == 0 {
                        name
                    } else {
                        e.endpoint_guid
                    },
                    flow,
                    ..e
                },
            ),
            ..d
        },
        None => d,
    }
}

/// The active devices among endpoints of one kind, in the order of their names.
pub open spec fn active_among(
    r: Seq<KeyView>,
    root_path: Seq<char>,
    flow: Flow,
    names: Seq<Seq<char>>,
) -> Seq<DeviceView>
    decreases names.len(),
{
    if names.len() == 0 {
        Seq::empty()
    } else {
        let rest = active_among(r, root_path, flow, names.drop_last());
        let path = registry::join(root_path, names.last());
        let d = device_at(r, Hkey::LocalMachine, path);
        if registry::has_key(r, Hkey::LocalMachine, path) && d.endpoint.unwrap().state
            == EndpointState::Active {
            rest.push(as_listed(d, names.last(), flow))
        } else {
            rest
        }
    }
}

/// The active devices of one kind.
pub open spec fn active_of_kind(r: Seq<KeyView>, root_path: Seq<char>, flow: Flow) -> Seq<
    DeviceView,
> {
    if registry::has_key(r, Hkey::LocalMachine, root_path) {
        active_among(r, root_path, flow, registry::children(r, Hkey::LocalMachine, root_path))
    } else {
        Seq::empty()
    }
}

/// The active devices: those for playback, then those for recording.
pub open spec fn active_devices(r: Seq<KeyView>) -> Seq<DeviceView> {
    active_of_kind(r, RENDER_PATH@, Flow::Render) + active_of_kind(r, CAPTURE_PATH@, Flow::Capture)
}

fn push_active(registry: &Registry, root_path: &str, flow: Flow, out: &mut Vec<DeviceInfo>)
    ensures
        devices(final(out)@) == devices(old(out)@) + active_of_kind(registry@, root_path@, flow),
{
    let ghost start = devices(out@);
    let root = match RegKey::open(registry, Hkey::LocalMachine, root_path) {
        Some(k) => k,
        None => {
            assert(devices(out@) =~= start + Seq::<DeviceView>::empty());
            return;
        },
    };
    let names = root.enum_sub_keys();
    let ghost all = text::texts(names@);
    let mut i: usize = 0;
    assert(all.take(0) =~= Seq::empty());
    assert(devices(out@) =~= start + active_among(registry@, root_path@, flow, all.take(0)));
    while i < names.len()
        invariant
            i <= names@.len(),
            all == text::texts(names@),
            root.registry == registry,
            root.root == Hkey::LocalMachine,
            root.path@ == root_path@,
            start == devices(old(out)@),
            devices(out@) == start + active_among(registry@, root_path@, flow, all.take(i as int)),
        decreases names@.len() - i,
    {
        let name = &names[i];
        let ghost t = all.take(i + 1);
        let ghost before = devices(out@);
        assert(t.drop_last() =~= all.take(i as int));
        assert(t.last() == name@);
        match root.open_sub_key(name.as_str()) {
            Some(key) => {
                match query_device_info(&key) {
                    Ok(Some(info)) => {
                        let mut info = info;
                        match info.endpoint {
                            Some(mut ep) => {
                                if ep.state == EndpointState::Active {
                                    if ep.endpoint_guid.as_str().is_empty() {
                                        ep.endpoint_guid = name.clone();
                                    }
                                    ep.flow = flow;
                                    info.endpoint = Some(ep);
                                    out.push(info);
                                    assert(devices(out@) =~= before.push(info@));
                                    assert(devices(out@) =~= start + active_among(
                                        registry@,
                                        root_path@,
                                        flow,
                                        t,
                                    ));
                                }
                            },
                            None => {},
                        }
                    },
                    _ => {},
                }
            },
            None => {},
        }
        i += 1;
    }
    assert(all.take(i as int) =~= all);
}

/// The active devices: those for playback, then those for recording. An endpoint
/// without a GUID among its properties gets the name of its key, and each the
/// direction of its kind.
pub fn enumerate_devices(registry: &Registry) -> (r: Result<Vec<DeviceInfo>, VxApoError>)
    ensures
        r matches Ok(list) && devices(list@) == active_devices(registry@),
{
    let mut out: Vec<DeviceInfo> = Vec::new();
    assert(devices(out@) =~= Seq::empty());
    push_active(registry, RENDER_PATH, Flow::Render, &mut out);
    push_active(registry, CAPTURE_PATH, Flow::Capture, &mut out);
    assert(devices(out@) =~= active_devices(registry@));
    Ok(out)
}

// ---------------------------------------------------------------------------
// What is promised
// ---------------------------------------------------------------------------
/// Whether the key of an endpoint says that it is active.
pub open spec fn says_active(r: Seq<KeyView>, path: Seq<char>) -> bool {
    registry::as_dword(registry::value_at(r, Hkey::LocalMachine, path, "DeviceState"@)) == Some(
        1u32,
    )
}

/// What is listed of one endpoint, and when it is.
proof fn lemma_listing(r: Seq<KeyView>, root_path: Seq<char>, flow: Flow, name: Seq<char>)
    ensures
        ({
            let path = registry::join(root_path, name);
            let d = device_at(r, Hkey::LocalMachine, path);
            let kept = registry::has_key(r, Hkey::LocalMachine, path)
                && d.endpoint.unwrap().state == EndpointState::Active;
            &&& kept == (registry::has_key(r, Hkey::LocalMachine, path) && says_active(r, path))
            &&& kept ==> is_listing(r, root_path, flow, name, as_listed(d, name, flow))
        }),
{
}

/// Where a device of a list comes from.
proof fn lemma_active_from(
    r: Seq<KeyView>,
    root_path: Seq<char>,
    flow: Flow,
    names: Seq<Seq<char>>,
    i: int,
) -> (k: int)
    requires
        0 <= i < active_among(r, root_path, flow, names).len(),
    ensures
        0 <= k < names.len(),
        is_listing(r, root_path, flow, names[k], active_among(r, root_path, flow, names)[i]),
    decreases names.len(),
{
    let rest = active_among(r, root_path, flow, names.drop_last());
    lemma_listing(r, root_path, flow, names.last());
    if i < rest.len() {
        let k = lemma_active_from(r, root_path, flow, names.drop_last(), i);
        assert(names.drop_last()[k] == names[k]);
        k
    } else {
        names.len() - 1
    }
}

/// Where an active endpoint stands in a list.
proof fn lemma_active_at(
    r: Seq<KeyView>,
    root_path: Seq<char>,
    flow: Flow,
    names: Seq<Seq<char>>,
    k: int,
) -> (i: int)
    requires
        0 <= k < names.len(),
        registry::has_key(r, Hkey::LocalMachine, registry::join(root_path, names[k])),
        says_active(r, registry::join(root_path, names[k])),
    ensures
        0 <= i < active_among(r, root_path, flow, names).len(),
        is_listing(r, root_path, flow, names[k], active_among(r, root_path, flow, names)[i]),
    decreases names.len(),
{
    let list = active_among(r, root_path, flow, names);
    let rest = active_among(r, root_path, flow, names.drop_last());
    lemma_listing(r, root_path, flow, names.last());
    if k < names.len() - 1 {
        assert(names.drop_last()[k] == names[k]);
        let i = lemma_active_at(r, root_path, flow, names.drop_last(), k);
        assert(list[i] == rest[i]);
        i
    } else {
        list.len() - 1
    }
}

/// Whether a device is what is listed of the endpoint of a name: it is active, has the
/// direction of its kind, the GUID among its properties or else the name, and what its
/// key says of everything else.
pub open spec fn is_listing(
    r: Seq<KeyView>,
    root_path: Seq<char>,
    flow: Flow,
    name: Seq<char>,
    d: DeviceView,
) -> bool {
    let path = root_path + "\\"@ + name;
    let read = device_at(r, Hkey::LocalMachine, path);
    &&& registry::has_key(r, Hkey::LocalMachine, path)
    &&& says_active(r, path)
    &&& d.slots == read.slots && d.format == read.format && d.install_mode == read.install_mode
        && d.installed_version == read.installed_version
    &&& d.endpoint matches Some(e) && read.endpoint matches Some(own) && {
        &&& e.flow == flow
        &&& e.endpoint_guid == if own.endpoint_guid.len() > 0 {
            own.endpoint_guid
        } else {
            name
        }
        &&& e.friendly_name == own.friendly_name && e.device_id == own.device_id && e.state
            == EndpointState::Active
    }
}

/// Every device that is listed is an endpoint below the playback or the recording
/// endpoints that is active, with the direction of its kind.
pub proof fn law_listed_devices_are_active(r: Seq<KeyView>, i: int)
    requires
        0 <= i < active_devices(r).len(),
    ensures
        ({
            let d = active_devices(r)[i];
            ||| exists|name: Seq<char>| #[trigger]
                is_listing(
                    r,
                    "SOFTWARE\\Microsoft\\Windows\\CurrentVersion\\MMDevices\\Audio\\Render"@,
                    Flow::Render,
                    name,
                    d,
                )
            ||| exists|name: Seq<char>| #[trigger]
                is_listing(
                    r,
                    "SOFTWARE\\Microsoft\\Windows\\CurrentVersion\\MMDevices\\Audio\\Capture"@,
                    Flow::Capture,
                    name,
                    d,
                )
        }),
{
    let a = active_of_kind(r, RENDER_PATH@, Flow::Render);
    let b = active_of_kind(r, CAPTURE_PATH@, Flow::Capture);
    let all = active_devices(r);
    let p = registry::children(r, Hkey::LocalMachine, RENDER_PATH@);
    let q = registry::children(r, Hkey::LocalMachine, CAPTURE_PATH@);
    if i < a.len() {
        let k = lemma_active_from(r, RENDER_PATH@, Flow::Render, p, i);
        assert(is_listing(r, RENDER_PATH@, Flow::Render, p[k], all[i]));
    } else {
        let j = i - a.len();
        assert(all[i] == b[j]);
        let k = lemma_active_from(r, CAPTURE_PATH@, Flow::Capture, q, j);
        assert(is_listing(r, CAPTURE_PATH@, Flow::Capture, q[k], all[i]));
    }
}

/// Every endpoint below the playback or the recording endpoints that is active is
/// listed.
pub proof fn law_active_devices_are_listed(r: Seq<KeyView>, captures: bool, name: Seq<char>)
    requires
        ({
            let root = if captures {
                CAPTURE_PATH@
            } else {
                RENDER_PATH@
            };
            &&& registry::has_key(r, Hkey::LocalMachine, root)
            &&& registry::children(r, Hkey::LocalMachine, root).contains(name)
            &&& registry::has_key(r, Hkey::LocalMachine, root + "\\"@ + name)
            &&& says_active(r, root + "\\"@ + name)
        }),
    ensures
        exists|i: int|
            0 <= i < active_devices(r).len() && is_listing(
                r,
                if captures {
                    CAPTURE_PATH@
                } else {
                    RENDER_PATH@
                },
                if captures {
                    Flow::Capture
                } else {
                    Flow::Render
                },
                name,
                #[trigger] active_devices(r)[i],
            ),
{
    let a = active_of_kind(r, RENDER_PATH@, Flow::Render);
    let all = active_devices(r);
    if captures {
        let names = registry::children(r, Hkey::LocalMachine, CAPTURE_PATH@);
        let k = choose|k: int| 0 <= k < names.len() && names[k] == name;
        let i = lemma_active_at(r, CAPTURE_PATH@, Flow::Capture, names, k);
        let b = active_of_kind(r, CAPTURE_PATH@, Flow::Capture);
        assert(all[a.len() + i] == b[i]);
    } else {
        let names = registry::children(r, Hkey::LocalMachine, RENDER_PATH@);
        let k = choose|k: int| 0 <= k < names.len() && names[k] == name;
        let i = lemma_active_at(r, RENDER_PATH@, Flow::Render, names, k);
        assert(all[i] == a[i]);
    }
}

/// The place of an endpoint is one where it is: among the playback endpoints if it is
/// there, else among the recording ones; there is none exactly where it is in neither.
pub proof fn law_endpoint_path(r: Seq<KeyView>, g: Seq<char>)
    ensures
        ({
            let render =
                "SOFTWARE\\Microsoft\\Windows\\CurrentVersion\\MMDevices\\Audio\\Render"@ + "\\"@
                + g;
            let capture =
                "SOFTWARE\\Microsoft\\Windows\\CurrentVersion\\MMDevices\\Audio\\Capture"@ + "\\"@
                + g;
            let at_render = registry::has_key(r, Hkey::LocalMachine, render);
            let at_capture = registry::has_key(r, Hkey::LocalMachine, capture);
            &&& endpoint_path(r, g) matches Some(p) ==> registry::has_key(r, Hkey::LocalMachine, p)
            &&& at_render ==> endpoint_path(r, g) == Some(render)
            &&& !at_render && at_capture ==> endpoint_path(r, g) == Some(capture)
            &&& endpoint_path(r, g) is None ==> !at_render && !at_capture
        }),
{
}

/// An installation is told by its two objects: where the two slots of a mode hold them,
/// and no mode that goes before could be meant, that is the mode. The slot before mixing
/// of the mode that is told holds its object.
pub proof fn law_installed_mode(slots: Seq<SlotValue>, mode: InstallMode)
    requires
        slots.len() == 5,
        slots[types::slot_index(types::premix_of(mode)) as int] == SlotValue::Guid(
            clsid_pre_mix(),
        ),
        slots[types::slot_index(types::postmix_of(mode)) as int] == SlotValue::Guid(
            clsid_post_mix(),
        ),
    ensures
        mode is LfxGfx ==> installed_mode(slots) is LfxGfx,
        mode is SfxMfx && slots[0] != SlotValue::Guid(clsid_pre_mix()) ==> installed_mode(
            slots,
        ) is SfxMfx,
        mode is SfxEfx && slots[0] != SlotValue::Guid(clsid_pre_mix()) && slots[3]
            != SlotValue::Guid(clsid_post_mix()) ==> installed_mode(slots) is SfxEfx,
        ({
            let found = installed_mode(slots);
            slots[types::slot_index(types::premix_of(found)) as int] == SlotValue::Guid(
                clsid_pre_mix(),
            )
        }),
{
}

/// This library counts as installed only where a version is recorded and one of its
/// objects stands in a slot of the mode; an object in each slot of the mode, with a
/// version, is an installation.
pub proof fn law_installed(d: DeviceView)
    requires
        d.slots.len() == 5,
    ensures
        d.installed_version.len() == 0 ==> !installed(d),
        installed(d) ==> exists|i: int|
            0 <= i < 5 && ((#[trigger] d.slots[i]) == SlotValue::Guid(clsid_pre_mix())
                || d.slots[i] == SlotValue::Guid(clsid_post_mix())),
        d.installed_version.len() > 0 && d.slots[types::slot_index(
            types::premix_of(d.install_mode),
        ) as int] == SlotValue::Guid(clsid_pre_mix()) ==> installed(d),
        d.installed_version.len() > 0 && d.slots[types::slot_index(
            types::postmix_of(d.install_mode),
        ) as int] == SlotValue::Guid(clsid_post_mix()) ==> installed(d),
{
    if installed(d) {
        let i = types::slot_index(types::premix_of(d.install_mode)) as int;
        let j = types::slot_index(types::postmix_of(d.install_mode)) as int;
        if slot_is_own(d.slots, types::premix_of(d.install_mode)) {
            assert(d.slots[i] is Guid);
        } else {
            assert(d.slots[j] is Guid);
        }
    }
}

} // verus!
