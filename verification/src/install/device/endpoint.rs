//! Audio endpoints: identifier, name, state and direction.

use vstd::prelude::*;
use crate::registry;
use crate::guid;
use crate::error::VxApoError;
use crate::guid::{guid_from_bytes, guid_to_string};
use crate::install::device::identity::{
    PKEY_DEVICE_INSTANCE_ID, PKEY_DEVICE_INTERFACE_FRIENDLY_NAME, PKEY_DEVICE_PRODUCT_NAME,
    PROPERTIES_KEY,
};
use crate::registry::{Hkey, KeyView, RegKey, RegValue, ValueView};
use crate::text::{concat3, eq};

verus! {

/// Property: the endpoint's GUID.
pub const PKEY_AUDIO_ENDPOINT_GUID_VALUE: &'static str =
    "{9D631510-92A8-4a79-A79E-A83812C9C119},2";

/// Property: the endpoint's GUID, under a plain name.
pub const PKEY_AUDIO_ENDPOINT_GUID_NAME: &'static str = "PKEY_AudioEndpoint_GUID";

/// The value of an endpoint that holds its state.
pub const DEVICE_STATE_VALUE: &'static str = "DeviceState";

/// The state of an endpoint.
#[derive(Clone, Copy, Debug, PartialEq, Eq, Structural)]
pub enum EndpointState {
    Active,
    Disabled,
    NotPresent,
    /// A state with no name.
    Unknown(u32),
}

/// The state that a number stands for.
pub open spec fn state_of(value: u32) -> EndpointState {
    if value == 1 {
        EndpointState::Active
    } else if value == 2 {
        EndpointState::Disabled
    } else if value == 4 {
        EndpointState::NotPresent
    } else {
        EndpointState::Unknown(value)
    }
}

impl From<u32> for EndpointState {
    fn from(value: u32) -> (r: EndpointState) {
        match value {
            1 => EndpointState::Active,
            2 => EndpointState::Disabled,
            4 => EndpointState::NotPresent,
            other => EndpointState::Unknown(other),
        }
    }
}

impl vstd::std_specs::convert::FromSpecImpl<u32> for EndpointState {
    open spec fn obeys_from_spec() -> bool {
        true
    }

    open spec fn from_spec(v: u32) -> EndpointState {
        state_of(v)
    }
}

/// The direction of an endpoint.
#[derive(Clone, Copy, Debug, PartialEq, Eq, Structural)]
pub enum Flow {
    Render,
    Capture,
}

/// What is known of an endpoint.
#[derive(Clone, Debug, PartialEq, Eq)]
pub struct EndpointInfo {
    /// The instance identifier of the device.
    pub device_id: String,
    /// The name shown for the endpoint.
    pub friendly_name: String,
    pub state: EndpointState,
    pub flow: Flow,
    /// The endpoint's GUID, as text.
    pub endpoint_guid: String,
}

/// The contents of what is known of an endpoint.
pub struct EndpointView {
    pub device_id: Seq<char>,
    pub friendly_name: Seq<char>,
    pub state: EndpointState,
    pub flow: Flow,
    pub endpoint_guid: Seq<char>,
}

impl View for EndpointInfo {
    type V = EndpointView;

    open spec fn view(&self) -> EndpointView {
        EndpointView {
            device_id: self.device_id@,
            friendly_name: self.friendly_name@,
            state: self.state,
            flow: self.flow,
            endpoint_guid: self.endpoint_guid@,
        }
    }
}

/// A text that may be missing, empty if it is.
pub open spec fn or_empty(v: Option<Seq<char>>) -> Seq<char> {
    match v {
        Some(s) => s,
        None => Seq::empty(),
    }
}

/// The name shown for an endpoint: its interface name, followed by the product
/// name in brackets where both are known and differ.
pub open spec fn shown_name(interface: Option<Seq<char>>, product: Option<Seq<char>>) -> Seq<char> {
    match (interface, product) {
        (Some(a), Some(b)) => if a != b {
            a + " ("@ + (b + ")"@)
        } else {
            a
        },
        (Some(a), None) => a,
        (None, Some(b)) => b,
        (None, None) => Seq::empty(),
    }
}

/// The GUID of an endpoint as its properties give it: as text under either name,
/// or as bytes under the plain name; empty when there is none.
pub open spec fn guid_from_properties(
    by_key: Option<ValueView>,
    by_name: Option<ValueView>,
) -> Seq<char> {
    match by_key {
        Some(ValueView::Sz(s)) => s,
        _ => match by_name {
            Some(ValueView::Sz(s)) => s,
            Some(ValueView::Binary(b)) => match guid::bytes_guid(b) {
                Some(g) => guid::guid_text(g),
                None => Seq::empty(),
            },
            _ => Seq::empty(),
        },
    }
}

/// What the key of an endpoint says of it.
pub open spec fn endpoint_of(key: RegKey) -> EndpointView {
    endpoint_at(key.registry@, key.root, key.path@)
}

/// What the key at a place says of the endpoint there.
pub open spec fn endpoint_at(r: Seq<KeyView>, root: Hkey, path: Seq<char>) -> EndpointView {
    let p = |name: Seq<char>|
        registry::value_at(r, root, registry::join(path, PROPERTIES_KEY@), name);
    EndpointView {
        device_id: or_empty(registry::as_sz(p(PKEY_DEVICE_INSTANCE_ID@))),
        friendly_name: shown_name(
            registry::as_sz(p(PKEY_DEVICE_INTERFACE_FRIENDLY_NAME@)),
            registry::as_sz(p(PKEY_DEVICE_PRODUCT_NAME@)),
        ),
        state: state_of(
            match registry::as_dword(registry::value_at(r, root, path, DEVICE_STATE_VALUE@)) {
                Some(n) => n,
                None => 0,
            },
        ),
        flow: Flow::Render,
        endpoint_guid: guid_from_properties(
            p(PKEY_AUDIO_ENDPOINT_GUID_VALUE@),
            p(PKEY_AUDIO_ENDPOINT_GUID_NAME@),
        ),
    }
}

fn show_name(interface: Option<String>, product: Option<String>) -> (r: String)
    ensures
        r@ == shown_name(
            match interface {
                Some(s) => Some(s@),
                None => None,
            },
            match product {
                Some(s) => Some(s@),
                None => None,
            },
        ),
{
    match (interface, product) {
        (Some(a), Some(b)) => {
            if !eq(a.as_str(), b.as_str()) {
                let mut tail = b;
                tail.append(")");
                concat3(a.as_str(), " (", tail.as_str())
            } else {
                a
            }
        },
        (Some(a), None) => a,
        (None, Some(b)) => b,
        (None, None) => String::new(),
    }
}

/// The endpoint's GUID as its properties give it.
fn extract_endpoint_guid(endpoint_key: &RegKey) -> (r: String)
    ensures
        r@ == endpoint_of(*endpoint_key).endpoint_guid,
{
    let props = match endpoint_key.open_sub_key(PROPERTIES_KEY) {
        Some(k) => k,
        None => {
            return String::new();
        },
    };
    match props.read_value(PKEY_AUDIO_ENDPOINT_GUID_VALUE) {
        Some(RegValue::Sz(s)) => s.clone(),
        _ => match props.read_value(PKEY_AUDIO_ENDPOINT_GUID_NAME) {
            Some(RegValue::Sz(s)) => s.clone(),
            Some(RegValue::Binary(b)) => match guid_from_bytes(b.as_slice()) {
                Some(g) => guid_to_string(&g),
                None => String::new(),
            },
            _ => String::new(),
        },
    }
}

/// What the key of an endpoint says of it. What is missing is left empty, and
/// the direction is that of playback.
pub fn query_endpoint(endpoint_key: &RegKey) -> (r: Result<Option<EndpointInfo>, VxApoError>)
    ensures
        r matches Ok(Some(info)) && info@ == endpoint_of(*endpoint_key),
{
    let props = endpoint_key.open_sub_key(PROPERTIES_KEY);
    let device_id = match &props {
        Some(p) => match p.read_sz(PKEY_DEVICE_INSTANCE_ID) {
            Some(s) => s,
            None => String::new(),
        },
        None => String::new(),
    };
    let interface_name = match &props {
        Some(p) => p.read_sz(PKEY_DEVICE_INTERFACE_FRIENDLY_NAME),
        None => None,
    };
    let product_name = match &props {
        Some(p) => p.read_sz(PKEY_DEVICE_PRODUCT_NAME),
        None => None,
    };
    let friendly_name = show_name(interface_name, product_name);
    let state_raw: u32 = match endpoint_key.read_dword(DEVICE_STATE_VALUE) {
        Some(n) => n,
        None => 0,
    };
    let state = EndpointState::from(state_raw);
    let endpoint_guid = extract_endpoint_guid(endpoint_key);
    Ok(Some(EndpointInfo { device_id, friendly_name, state, flow: Flow::Render, endpoint_guid }))
}

/// Whether the endpoint is active.
pub fn is_endpoint_active(endpoint_key: &RegKey) -> (r: Result<bool, VxApoError>)
    ensures
        r == Ok::<bool, VxApoError>(registry::as_dword(endpoint_key.value(DEVICE_STATE_VALUE@)) == Some(1u32)),
{
    match endpoint_key.read_dword(DEVICE_STATE_VALUE) {
        Some(n) => Ok(n == 1),
        None => Ok(false),
    }
}

/// Exactly the numbers one, two and four stand for a state with a name; every
/// other number is kept.
pub proof fn law_state_of(value: u32)
    ensures
        state_of(value) == EndpointState::Unknown(value) <==> value != 1 && value != 2 && value
            != 4,
{
}

} // verus!
