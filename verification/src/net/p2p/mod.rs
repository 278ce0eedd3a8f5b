//! Peer-to-peer lobby: trust modes, wire records, room metadata, the
//! browser's and the host's bookkeeping, and protocol message routing.

pub mod behaviour;
pub mod browser;
pub mod discovery;
pub mod host;
pub mod join;
pub mod keyed;
pub mod mode;
pub mod mp_bridge;
