//! The room: lobby bookkeeping and the zero-trust start.

pub mod lobby;
pub mod zerotrust;
