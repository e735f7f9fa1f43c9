//! What an object is initialised with.

use vstd::prelude::*;
use crate::guid::GUID;
use crate::instance::object;
use crate::instance::object::{apoguid_nokey, apoguid_novalue, guid_null};

verus! {

/// What an object is initialised with.
#[derive(Clone, Debug)]
pub struct ApoInitParams {
    /// The class of the object.
    pub apo_clsid: GUID,
    pub endpoint_guid: GUID,
    /// The class of the child; a special identifier where there is none.
    pub child_apo_guid: GUID,
    /// Whether silent buffers may be passed through.
    pub allow_silent_buffer_modification: bool,
    /// The place of the device in the registry.
    pub device_reg_path: String,
}

impl ApoInitParams {
    /// What an object of a class is initialised with where nothing else is known:
    /// no endpoint, no child, no device.
    pub fn default_for_clsid(clsid: GUID) -> (p: ApoInitParams)
        ensures
            p.apo_clsid == clsid,
            p.endpoint_guid == guid_null(),
            p.child_apo_guid == apoguid_nokey(),
            !p.allow_silent_buffer_modification,
            p.device_reg_path@.len() == 0,
    {
        ApoInitParams {
            apo_clsid: clsid,
            endpoint_guid: guid_null(),
            child_apo_guid: apoguid_nokey(),
            allow_silent_buffer_modification: false,
            device_reg_path: String::new(),
        }
    }

    /// Whether there is a child.
    pub fn has_child_apo(&self) -> (r: bool)
        ensures
            r == object::names_object(self.child_apo_guid),
    {
        self.child_apo_guid != apoguid_nokey() && self.child_apo_guid != apoguid_novalue()
            && self.child_apo_guid != guid_null()
    }
}

} // verus!
