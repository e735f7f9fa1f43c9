//! Registering the library and undoing what was changed.

pub mod exports;
pub mod rollback;
