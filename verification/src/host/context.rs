//! What an object knows of the endpoint that it works for.

use vstd::prelude::*;

verus! {

/// What an object knows of the endpoint that it works for.
#[derive(Clone, Debug, PartialEq, Eq)]
pub struct HostContext {
    /// The configuration file.
    pub config_path: String,
    /// Whether the endpoint records.
    pub is_capture: bool,
    /// Whether the object processes before mixing.
    pub is_pre_mix: bool,
    pub device_guid: Option<String>,
    pub device_name: Option<String>,
    pub connection_name: Option<String>,
}

} // verus!
