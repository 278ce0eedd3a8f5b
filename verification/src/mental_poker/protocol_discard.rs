//! Protocol 4: announcing a discard.
//!
//! A player discards a tile they drew. Protocol 2 already fixed that
//! position's plaintext for them, so the discard is broadcast in the clear as
//! (position, plaintext). Every mirror checks that the position is in the
//! player's hand: drawn, and not discarded, melded or used in a concealed
//! kan. The plaintext itself is audited later, when the winning hand is shown.

use vstd::prelude::*;
use super::point::copy_bytes;
use super::protocol_state::{
    HandStateError, HandView, Table, law_hand_moves_in_step, same_public, same_public_tables,
    spec_record_discard,
};

verus! {

/// The broadcast of one discard.
#[derive(Debug, Clone, PartialEq, Eq)]
pub struct DiscardAnnouncement {
    pub player: usize,
    pub deck_index: usize,
    /// The canonical encoding of the discarded tile's point.
    pub plaintext: Vec<u8>,
}

/// Why a discard announcement was refused.
#[derive(Debug, Clone, Copy, PartialEq, Eq, Structural)]
pub enum DiscardError {
    /// The player has no seat at the table.
    UnknownPlayer { player: usize, n: usize },
    /// The player's ledger refused the discard.
    Hand(HandStateError),
}

/// What applying a discard does to the table's ledgers.
pub open spec fn discard_outcome(t: Seq<HandView>, n: usize, a: DiscardAnnouncement) -> (Result<(), DiscardError>, Seq<HandView>) {
    if a.player >= n {
        (Err(DiscardError::UnknownPlayer { player: a.player, n }), t)
    } else {
        let (r, h) = spec_record_discard(t[a.player as int], a.deck_index, a.plaintext@);
        (
            match r {
                Ok(()) => Ok(()),
                Err(e) => Err(DiscardError::Hand(e)),
            },
            t.update(a.player as int, h),
        )
    }
}

impl DiscardAnnouncement {
    /// Checks the announcement against the table and records it.
    pub fn apply(&self, table: &mut Table) -> (r: Result<(), DiscardError>)
        requires
            old(table).wf(),
        ensures
            final(table).wf(),
            final(table).n_players == old(table).n_players,
            final(table).wall_size == old(table).wall_size,
            (r, final(table)@) == discard_outcome(old(table)@, old(table).n_players, *self),
    {
        if self.player >= table.n_players {
            return Err(DiscardError::UnknownPlayer { player: self.player, n: table.n_players });
        }
        let ghost before = table@;
        let ghost hands0 = table.hands@;
        let res = table.hand_mut(self.player).record_discard(self.deck_index, copy_bytes(&self.plaintext));
        proof {
            let p = self.player as int;
            assert(table.hands@ == hands0.update(p, table.hands@[p]));
            assert(table@ =~= before.update(p, table.hands@[p]@));
            assert forall|i: int| 0 <= i < table.hands@.len() implies (#[trigger] table.hands@[i]).wf() by {
                if i != p {
                    assert(table.hands@[i] == hands0[i]);
                }
            }
        }
        match res {
            Ok(()) => Ok(()),
            Err(e) => Err(DiscardError::Hand(e)),
        }
    }
}

/// Every player's mirror reaches the same verdict on a discard, and mirrors
/// that agreed publicly still agree afterwards.
pub proof fn law_discard_in_step(t1: Seq<HandView>, t2: Seq<HandView>, n: usize, a: DiscardAnnouncement)
    requires
        same_public_tables(t1, t2),
        n == t1.len(),
    ensures
        discard_outcome(t1, n, a).0 == discard_outcome(t2, n, a).0,
        same_public_tables(discard_outcome(t1, n, a).1, discard_outcome(t2, n, a).1),
{
    if a.player < n {
        let p = a.player as int;
        law_hand_moves_in_step(t1[p], t2[p], a.deck_index, a.plaintext@, arbitrary(), arbitrary(), 0);
        let r1 = discard_outcome(t1, n, a).1;
        let r2 = discard_outcome(t2, n, a).1;
        assert forall|i: int| 0 <= i < r1.len() implies same_public(#[trigger] r1[i], r2[i]) by {
            if i != p {
                assert(same_public(t1[i], t2[i]));
            }
        }
    }
}

} // verus!
