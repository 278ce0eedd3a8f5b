//! Protocol 6: a concealed kan, revealed to one monitor.
//!
//! The player declares the four deck positions publicly and names a monitor
//! (another player); the four plaintexts go privately to the monitor, who
//! checks that they are four of a kind and reports cheating otherwise. That
//! is not cryptographically binding (the monitor could collude), but it keeps
//! the kan concealed from everyone else.
//!
//! 1. the player picks a monitor `m` other than themself;
//! 2. broadcasts the four positions and `m`, so everyone knows of the kan;
//! 3. sends the four plaintexts to `m` alone;
//! 4. everyone checks that the positions are in the player's hand; `m` checks
//!    the tiles.
//!
//! This module does the public transition and the ownership check; comparing
//! the four tiles is the game engine's concern.

use vstd::prelude::*;
use super::protocol_state::{
    ConcealedKanRecord, HandStateError, HandView, Table, law_hand_moves_in_step, same_public,
    same_public_tables, spec_record_concealed_kan,
};

verus! {

/// The public part: everyone learns that a concealed kan exists.
#[derive(Debug, Clone, Copy, PartialEq, Eq)]
pub struct ConcealedKanAnnouncement {
    pub player: usize,
    pub deck_indices: [usize; 4],
    pub monitor_player: usize,
}

/// The private part, sent to the monitor: the four canonical point
/// encodings.
#[derive(Debug, Clone, PartialEq, Eq)]
pub struct ConcealedKanReveal {
    pub plaintexts: [Vec<u8>; 4],
}

/// Why a concealed kan announcement was refused.
#[derive(Debug, Clone, Copy, PartialEq, Eq, Structural)]
pub enum ConcealedKanError {
    /// The player has no seat at the table.
    UnknownPlayer { player: usize, n: usize },
    /// The monitor has no seat at the table.
    UnknownMonitor { monitor: usize, n: usize },
    /// The monitor must be someone else.
    SelfMonitor { player: usize },
    /// The player's ledger refused the kan.
    Hand(HandStateError),
}

/// What applying a concealed kan does to the table's ledgers.
pub open spec fn concealed_kan_outcome(t: Seq<HandView>, n: usize, a: ConcealedKanAnnouncement) -> (Result<(), ConcealedKanError>, Seq<HandView>) {
    if a.player >= n {
        (Err(ConcealedKanError::UnknownPlayer { player: a.player, n }), t)
    } else if a.monitor_player >= n {
        (Err(ConcealedKanError::UnknownMonitor { monitor: a.monitor_player, n }), t)
    } else if a.monitor_player == a.player {
        (Err(ConcealedKanError::SelfMonitor { player: a.player }), t)
    } else {
        let kan = ConcealedKanRecord { deck_indices: a.deck_indices, monitor_player: a.monitor_player };
        let (r, h) = spec_record_concealed_kan(t[a.player as int], kan);
        (
            match r {
                Ok(()) => Ok(()),
                Err(e) => Err(ConcealedKanError::Hand(e)),
            },
            t.update(a.player as int, h),
        )
    }
}

impl ConcealedKanAnnouncement {
    /// Checks the public part against the table and moves the four positions
    /// out of the player's hand.
    pub fn apply(&self, table: &mut Table) -> (r: Result<(), ConcealedKanError>)
        requires
            old(table).wf(),
        ensures
            final(table).wf(),
            final(table).n_players == old(table).n_players,
            final(table).wall_size == old(table).wall_size,
            (r, final(table)@) == concealed_kan_outcome(old(table)@, old(table).n_players, *self),
    {
        let n = table.n_players;
        if self.player >= n {
            return Err(ConcealedKanError::UnknownPlayer { player: self.player, n });
        }
        if self.monitor_player >= n {
            return Err(ConcealedKanError::UnknownMonitor { monitor: self.monitor_player, n });
        }
        if self.monitor_player == self.player {
            return Err(ConcealedKanError::SelfMonitor { player: self.player });
        }
        let kan = ConcealedKanRecord { deck_indices: self.deck_indices, monitor_player: self.monitor_player };
        let ghost before = table@;
        let ghost hands0 = table.hands@;
        let res = table.hand_mut(self.player).record_concealed_kan(kan);
        proof {
            let p = self.player as int;
            assert(table.hands@ == hands0.update(p, table.hands@[p]));
            assert(table@ =~= before.update(p, table.hands@[p]@));
            assert forall|i: int| 0 <= i < table.hands@.len() implies (#[trigger] table.hands@[i]).wf() by {
                if i != p {
                    assert(table.hands@[i] == hands0[i]);
                }
            }
        }
        match res {
            Ok(()) => Ok(()),
            Err(e) => Err(ConcealedKanError::Hand(e)),
        }
    }
}

/// Every player's mirror reaches the same verdict on a concealed kan, and
/// mirrors that agreed publicly still agree afterwards.
pub proof fn law_concealed_kan_in_step(t1: Seq<HandView>, t2: Seq<HandView>, n: usize, a: ConcealedKanAnnouncement)
    requires
        same_public_tables(t1, t2),
        n == t1.len(),
    ensures
        concealed_kan_outcome(t1, n, a).0 == concealed_kan_outcome(t2, n, a).0,
        same_public_tables(concealed_kan_outcome(t1, n, a).1, concealed_kan_outcome(t2, n, a).1),
{
    if a.player < n {
        let p = a.player as int;
        let kan = ConcealedKanRecord { deck_indices: a.deck_indices, monitor_player: a.monitor_player };
        law_hand_moves_in_step(t1[p], t2[p], 0, Seq::empty(), arbitrary(), kan, 0);
        let r1 = concealed_kan_outcome(t1, n, a).1;
        let r2 = concealed_kan_outcome(t2, n, a).1;
        assert forall|i: int| 0 <= i < r1.len() implies same_public(#[trigger] r1[i], r2[i]) by {
            assert(same_public(t1[i], t2[i]));
        }
    }
}

} // verus!
