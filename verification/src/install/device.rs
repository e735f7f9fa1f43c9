//! Endpoints and their devices: what the registry says of them, and what an
//! installation left there.

pub mod endpoint;
pub mod format;
pub mod identity;
pub mod info;
pub mod roundtrip;
pub mod slots;
pub mod stale;
pub mod sysfx;
pub mod templates;
