//! Zero-trust table primitives: permutations used by the joint shuffle and
//! the per-player hand ledgers that follow the protocol announcements.

pub mod point;
pub mod protocol_call;
pub mod protocol_concealed_kan;
pub mod protocol_discard;
pub mod protocol_state;
pub mod shuffle;
