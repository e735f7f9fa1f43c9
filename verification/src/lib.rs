//! The logic of an audio effect driver: which endpoints it is installed on and how,
//! how its configuration is read, and what its processing objects answer.
//!
//! The registry is a value here. Functions read it and change it, every change is
//! kept in its journal, and the caller carries the journal out. Services, files and
//! the clock enter the same way, as values and as steps to be taken.
//! Floating-point numbers are carried as their bits, and computed by the caller.

pub mod audio_defs;
pub mod error;
pub mod guid;
pub mod host;
pub mod hresult;
pub mod install;
pub mod installation;
pub mod instance;
pub mod object;
pub mod refusal;
pub mod registry;
pub mod text;
pub mod undo;
