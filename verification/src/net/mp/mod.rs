//! The zero-trust (mental poker) player: its phases, commands and settings.

pub mod actor;
pub mod cmd;
pub mod phase;
