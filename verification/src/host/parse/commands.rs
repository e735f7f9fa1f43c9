//! The commands of a configuration file, one module each.

pub mod cmd_channel;
pub mod cmd_cond;
pub mod cmd_device;
pub mod cmd_expr;
pub mod cmd_include;
pub mod cmd_stage;
pub mod conditions;
pub mod machine;
pub mod tree;
