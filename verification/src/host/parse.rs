//! Reading configuration files.

pub mod commands;
pub mod parser;
