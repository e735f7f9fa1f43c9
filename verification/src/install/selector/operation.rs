//! Installing on an endpoint and removing an installation.

pub mod capx;
pub mod execute;
pub mod helpers;
pub mod outcome;
pub mod transaction;

use vstd::prelude::*;
use crate::install::device::slots::InstallMode;

pub use execute::{migrate_install, uninstall_endpoint, write_install_config, UninstallOutcomes};
pub use transaction::{RollbackAction, Transaction};

verus! {

/// How to install.
#[derive(Clone, Copy, Debug, PartialEq, Eq, Structural)]
pub struct InstallConfig {
    pub install_premix: bool,
    pub install_postmix: bool,
    /// Which two slots are used.
    pub install_mode: InstallMode,
    /// Whether the object displaced before mixing is kept as a child.
    pub use_original_apo_premix: bool,
    /// Whether the object displaced after mixing is kept as a child.
    pub use_original_apo_postmix: bool,
    /// Whether silent buffers may be passed through.
    pub allow_silent_buffer: bool,
    pub auto_adjust: bool,
}

/// The configuration used where nothing else is asked for.
pub open spec fn standard_config() -> InstallConfig {
    InstallConfig {
        install_premix: true,
        install_postmix: true,
        install_mode: InstallMode::SfxEfx,
        use_original_apo_premix: false,
        use_original_apo_postmix: false,
        allow_silent_buffer: true,
        auto_adjust: false,
    }
}

impl InstallConfig {
    /// The configuration used where nothing else is asked for.
    pub fn default_config() -> (r: InstallConfig)
        ensures
            r == standard_config(),
    {
        InstallConfig {
            install_premix: true,
            install_postmix: true,
            install_mode: InstallMode::default_mode(),
            use_original_apo_premix: false,
            use_original_apo_postmix: false,
            allow_silent_buffer: true,
            auto_adjust: false,
        }
    }
}

} // verus!
