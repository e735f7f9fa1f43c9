//! The processing objects as the audio engine sees them.

pub mod apo_child;
pub mod apo_conf;
pub mod apo_interface;
pub mod apo_rt;
pub mod audio_compat;
pub mod init;
pub mod reg_props;
