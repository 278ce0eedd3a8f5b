//! Protocol 5: announcing an open call (chi, pon, open kan).
//!
//! The caller turns tiles of their concealed hand, plus one discard of
//! another player, into an open meld, and broadcasts the three (chi, pon) or
//! four (kan) plaintexts with their deck positions. Every mirror checks:
//! 1. the positions from the caller's hand are in that hand;
//! 2. the one position taken from `from_player` is among that player's
//!    discards (protocol 4), with the same plaintext;
//! 3. plaintexts and positions correspond one to one.
//!
//! Whether the tiles form a legal meld is the game engine's concern; this
//! module checks positions, plaintexts and ownership only.

use vstd::prelude::*;
use super::point::{bytes_eq, copy_byte_list, views};
use super::protocol_state::{
    CallType, HandStateError, HandView, MeldRecord, MeldView, Table, copy_usizes, law_hand_moves_in_step,
    same_public, same_public_tables, spec_record_meld,
};

verus! {

/// The broadcast of one open call.
#[derive(Debug, Clone, PartialEq, Eq)]
pub struct CallAnnouncement {
    pub player: usize,
    pub call_type: CallType,
    pub deck_indices: Vec<usize>,
    /// Canonical point encodings, position by position.
    pub plaintexts: Vec<Vec<u8>>,
    /// Whose discard is called; never the caller.
    pub from_player: usize,
    /// The called discard is `deck_indices[from_position_in_meld]`.
    pub from_position_in_meld: usize,
}

/// Why a call announcement was refused.
#[derive(Debug, Clone, Copy, PartialEq, Eq, Structural)]
pub enum CallError {
    /// The caller has no seat at the table.
    UnknownPlayer { player: usize, n: usize },
    /// The discarder has no seat at the table.
    UnknownFromPlayer { from: usize, n: usize },
    /// A player cannot call their own discard.
    SelfCall { player: usize },
    /// The called discard's position is outside the meld.
    FromPositionOutOfRange { pos: usize, len: usize },
    /// The discarder never discarded that position.
    FromDiscardNotFound { from: usize, index: usize },
    /// The announced plaintext differs from the recorded discard.
    FromPlaintextMismatch { index: usize },
    /// The caller's ledger refused the meld.
    Hand(HandStateError),
}

impl CallAnnouncement {
    /// The meld this call records in the caller's ledger.
    pub open spec fn meld_view(self) -> MeldView {
        MeldView {
            call_type: self.call_type,
            deck_indices: self.deck_indices@,
            plaintexts: views(self.plaintexts@),
            from_player: self.from_player,
            from_position_in_meld: self.from_position_in_meld,
        }
    }

    /// The checks that come before the called plaintext is read.
    pub open spec fn passes_seat_checks(self, n: usize) -> bool {
        &&& self.player < n
        &&& self.from_player < n
        &&& self.player != self.from_player
        &&& self.from_position_in_meld < self.deck_indices@.len()
    }
}

/// What applying a call does to the table's ledgers.
pub open spec fn call_outcome(t: Seq<HandView>, n: usize, a: CallAnnouncement) -> (Result<(), CallError>, Seq<HandView>) {
    let fp = a.from_position_in_meld;
    if a.player >= n {
        (Err(CallError::UnknownPlayer { player: a.player, n }), t)
    } else if a.from_player >= n {
        (Err(CallError::UnknownFromPlayer { from: a.from_player, n }), t)
    } else if a.player == a.from_player {
        (Err(CallError::SelfCall { player: a.player }), t)
    } else if fp >= a.deck_indices@.len() {
        (Err(CallError::FromPositionOutOfRange { pos: fp, len: a.deck_indices@.len() as usize }), t)
    } else {
        let from_index = a.deck_indices@[fp as int];
        let from_hand = t[a.from_player as int];
        if !from_hand.discarded.contains_key(from_index) {
            (Err(CallError::FromDiscardNotFound { from: a.from_player, index: from_index }), t)
        } else if from_hand.discarded[from_index] != a.plaintexts@[fp as int]@ {
            (Err(CallError::FromPlaintextMismatch { index: from_index }), t)
        } else {
            let (r, h) = spec_record_meld(t[a.player as int], a.meld_view());
            (
                match r {
                    Ok(()) => Ok(()),
                    Err(e) => Err(CallError::Hand(e)),
                },
                t.update(a.player as int, h),
            )
        }
    }
}

impl CallAnnouncement {
    /// Checks the announcement against the table and records the meld.
    pub fn apply(&self, table: &mut Table) -> (r: Result<(), CallError>)
        requires
            old(table).wf(),
            self.passes_seat_checks(old(table).n_players) ==> self.from_position_in_meld
                < self.plaintexts@.len(),
        ensures
            final(table).wf(),
            final(table).n_players == old(table).n_players,
            final(table).wall_size == old(table).wall_size,
            (r, final(table)@) == call_outcome(old(table)@, old(table).n_players, *self),
    {
        let n = table.n_players;
        if self.player >= n {
            return Err(CallError::UnknownPlayer { player: self.player, n });
        }
        if self.from_player >= n {
            return Err(CallError::UnknownFromPlayer { from: self.from_player, n });
        }
        if self.player == self.from_player {
            return Err(CallError::SelfCall { player: self.player });
        }
        let fp = self.from_position_in_meld;
        if fp >= self.deck_indices.len() {
            return Err(CallError::FromPositionOutOfRange { pos: fp, len: self.deck_indices.len() });
        }
        let from_index = self.deck_indices[fp];
        let from_pt = &self.plaintexts[fp];
        let from_hand = table.hand(self.from_player);
        proof {
            assert(table@[self.from_player as int] == from_hand@);
        }
        match from_hand.discarded_plaintext(from_index) {
            None => {
                return Err(CallError::FromDiscardNotFound { from: self.from_player, index: from_index });
            },
            Some(recorded) => {
                if !bytes_eq(recorded.as_slice(), from_pt.as_slice()) {
                    return Err(CallError::FromPlaintextMismatch { index: from_index });
                }
            },
        }
        let meld = MeldRecord {
            call_type: self.call_type,
            deck_indices: copy_usizes(&self.deck_indices),
            plaintexts: copy_byte_list(&self.plaintexts),
            from_player: self.from_player,
            from_position_in_meld: fp,
        };
        proof {
            assert(meld@ == self.meld_view());
        }
        let ghost before = table@;
        let ghost hands0 = table.hands@;
        let res = table.hand_mut(self.player).record_meld(meld);
        proof {
            let p = self.player as int;
            assert(table.hands@ == hands0.update(p, table.hands@[p]));
            assert(table@ =~= before.update(p, table.hands@[p]@));
            assert forall|i: int| 0 <= i < table.hands@.len() implies (#[trigger] table.hands@[i]).wf() by {
                if i != p {
                    assert(table.hands@[i] == hands0[i]);
                }
            }
        }
        match res {
            Ok(()) => Ok(()),
            Err(e) => Err(CallError::Hand(e)),
        }
    }
}

/// Every player's mirror reaches the same verdict on a call, and mirrors that
/// agreed publicly still agree afterwards.
pub proof fn law_call_in_step(t1: Seq<HandView>, t2: Seq<HandView>, n: usize, a: CallAnnouncement)
    requires
        same_public_tables(t1, t2),
        n == t1.len(),
    ensures
        call_outcome(t1, n, a).0 == call_outcome(t2, n, a).0,
        same_public_tables(call_outcome(t1, n, a).1, call_outcome(t2, n, a).1),
{
    if a.player < n && a.from_player < n {
        let p = a.player as int;
        assert(same_public(t1[a.from_player as int], t2[a.from_player as int]));
        law_hand_moves_in_step(t1[p], t2[p], 0, Seq::empty(), a.meld_view(), arbitrary(), 0);
        let r1 = call_outcome(t1, n, a).1;
        let r2 = call_outcome(t2, n, a).1;
        assert forall|i: int| 0 <= i < r1.len() implies same_public(#[trigger] r1[i], r2[i]) by {
            assert(same_public(t1[i], t2[i]));
        }
    }
}

} // verus!
