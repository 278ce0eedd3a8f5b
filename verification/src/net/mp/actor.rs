//! Settings of a zero-trust player.

use vstd::prelude::*;

verus! {

/// What a zero-trust player is started with.
#[derive(Debug, Clone)]
pub struct MpConfig {
    /// This player's index in the room (0..N): fixes the shuffle order and
    /// the sender of its broadcasts.
    pub own_index: usize,
    /// The peer ids of all N players, in one agreed order.
    pub all_peer_ids: Vec<Vec<u8>>,
    /// Room id plus a per-hand nonce, from which the card mapping derives.
    pub session_label: Vec<u8>,
    /// Wall size (136 in play; smaller in tests).
    pub deck_size: usize,
    /// Rounds of the cut-and-choose shuffle proof (80 in play).
    pub cnc_k_rounds: usize,
}

impl MpConfig {
    /// The number of players: one per peer id.
    pub fn n_players(&self) -> (r: usize)
        ensures
            r == self.all_peer_ids@.len(),
    {
        self.all_peer_ids.len()
    }
}

} // verus!
