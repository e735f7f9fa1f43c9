//! Registering the classes and installing on an endpoint.

pub mod clsid_entries;
pub mod install;
pub mod notify;
pub mod outcome;
