//! Choosing an endpoint, and installing there or removing an installation.

pub mod operation;
pub mod select;
