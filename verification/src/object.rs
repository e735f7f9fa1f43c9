//! The classes of the processing objects.

pub mod vx_reg_props;
