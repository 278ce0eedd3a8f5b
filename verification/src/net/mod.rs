//! Networking: LAN room discovery, the zero-trust player's phases and
//! commands, the peer-to-peer lobby, and the room's seating rules.

pub mod discovery;
pub mod mp;
pub mod p2p;
pub mod room;
pub mod text;
