//! The five effect slots of an endpoint, the three ways to occupy them, and the
//! queries on what they hold.

pub mod child;
pub mod read;
pub mod types;

pub use child::{
    child_apo_key_exists, get_original_post_mix, get_original_pre_mix, read_child_apo_guid,
    ChildApoKind, CHILD_APO_PATH_ROOT,
};
pub use read::{detect_install_mode, read_all_slots, read_slot_value};
pub use types::{
    ApoSlot, InstallMode, SlotValue, FX_PROPERTIES_KEY, INSTALL_VERSION, INSTALL_VERSION_LEGACY,
};
