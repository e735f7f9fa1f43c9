//! What stands between the audio engine and the effects: configuration,
//! installation and the processing objects.

pub mod chain;
pub mod context;
pub mod device;
pub mod installation;
pub mod instance;
pub mod parse;
pub mod watcher;
