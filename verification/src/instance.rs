//! Processing objects: their state, and how many of them are alive.

pub mod object;
pub mod ref_count;
