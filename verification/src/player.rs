//! Players and the placeholder AI.
//!
//! The AI plays just enough to keep a game moving:
//! - after drawing: win by tsumo when it can, otherwise discard the tile it
//!   just drew;
//! - on another player's discard: ron when it can, otherwise pass.

use vstd::prelude::*;
use crate::domain::{Action, Phase, Seat, Tile, seat_index};

verus! {

/// Who controls a seat.
#[derive(Debug, Clone, Copy, PartialEq, Eq, Structural)]
pub enum Controller {
    Human,
    DummyAi,
}

/// What the AI reads of one player.
#[derive(Debug, Clone)]
pub struct PlayerState {
    /// The tile drawn this turn, if any.
    pub last_drawn: Option<Tile>,
    /// The closed part of the hand.
    pub closed: Vec<Tile>,
}

/// What the AI reads of the game: whose turn it is, the phase, the players,
/// and the win checks that the engine has already made for the current
/// position (tsumo for the player to move, ron for each seat on the last
/// discard).
#[derive(Debug, Clone)]
pub struct GameState {
    pub turn: Seat,
    pub phase: Phase,
    pub players: [PlayerState; 4],
    pub tsumo_available: bool,
    pub ron_available: [bool; 4],
}

impl GameState {
    /// The player to move may declare tsumo.
    pub fn can_tsumo(&self) -> (r: bool)
        ensures
            r == self.tsumo_available,
    {
        self.tsumo_available
    }

    /// `who` may declare ron on the last discard.
    pub fn can_ron(&self, who: Seat) -> (r: bool)
        ensures
            r == self.ron_available[seat_index(who)],
    {
        self.ron_available[who.index()]
    }
}

/// The discard fallback: the tile just drawn, else the last closed tile,
/// else a pass.
pub open spec fn spec_fallback_discard(state: GameState) -> Action {
    let p = state.players[seat_index(state.turn)];
    match p.last_drawn {
        Some(t) => Action::Discard(t),
        None => if p.closed@.len() > 0 {
            Action::Discard(p.closed@.last())
        } else {
            Action::Pass
        },
    }
}

fn fallback_discard(state: &GameState) -> (r: Action)
    ensures
        r == spec_fallback_discard(*state),
{
    let me = state.turn;
    let p = &state.players[me.index()];
    if let Some(t) = p.last_drawn {
        return Action::Discard(t);
    }
    let n = p.closed.len();
    if n > 0 {
        return Action::Discard(p.closed[n - 1]);
    }
    Action::Pass
}

/// The AI's move in the discard phase: tsumo when possible, otherwise the
/// discard fallback.
pub fn ai_choose_discard(state: &GameState) -> (r: Action)
    ensures
        r == if state.tsumo_available {
            Action::Tsumo
        } else {
            spec_fallback_discard(*state)
        },
{
    if state.can_tsumo() {
        return Action::Tsumo;
    }
    fallback_discard(state)
}

/// The AI's answer to another player's discard: ron when possible, never a
/// call.
pub fn ai_react_to_discard(state: &GameState, who: Seat) -> (r: Action)
    ensures
        r == if state.ron_available[seat_index(who)] {
            Action::Ron(who)
        } else {
            Action::Pass
        },
{
    if state.can_ron(who) {
        return Action::Ron(who);
    }
    Action::Pass
}

/// The move made for a player whose thinking time ran out. Unlike the AI it
/// never declares a win: in the discard phase it discards (the drawn tile,
/// else the last closed tile), in any other phase it passes.
pub fn default_action_on_timeout(state: &GameState) -> (r: Action)
    ensures
        r == if state.phase == Phase::AwaitDiscard {
            spec_fallback_discard(*state)
        } else {
            Action::Pass
        },
{
    match state.phase {
        Phase::AwaitDiscard => fallback_discard(state),
        _ => Action::Pass,
    }
}

/// The discard fallback reads the hand of the player whose turn it is and no
/// other: it discards that player's drawn tile, else the last tile of that
/// player's closed hand, else passes; two positions with the same player to
/// move holding the same hand give the same move.
pub proof fn law_fallback_reads_mover(a: GameState, b: GameState)
    ensures
        ({
            let p = a.players[seat_index(a.turn)];
            &&& (p.last_drawn matches Some(t) ==> spec_fallback_discard(a) == Action::Discard(t))
            &&& (p.last_drawn is None && p.closed@.len() > 0 ==> spec_fallback_discard(a) == Action::Discard(p.closed@[p.closed@.len() - 1]))
            &&& (p.last_drawn is None && p.closed@.len() == 0 ==> spec_fallback_discard(a) == Action::Pass)
        }),
        a.turn == b.turn && a.players[seat_index(a.turn)].last_drawn == b.players[seat_index(b.turn)].last_drawn
            && a.players[seat_index(a.turn)].closed@ == b.players[seat_index(b.turn)].closed@
            ==> spec_fallback_discard(a) == spec_fallback_discard(b),
{
}

/// Without a tsumo to declare, the AI and the timeout move in the discard
/// phase both discard the drawn tile of the player whose turn it is, else
/// the last tile of that player's closed hand.
pub proof fn law_discard_move_is_movers_tile(state: GameState)
    requires
        !state.tsumo_available,
        state.phase == Phase::AwaitDiscard,
    ensures
        ({
            let p = state.players[seat_index(state.turn)];
            let expected = match p.last_drawn {
                Some(t) => Action::Discard(t),
                None => if p.closed@.len() > 0 {
                    Action::Discard(p.closed@[p.closed@.len() - 1])
                } else {
                    Action::Pass
                },
            };
            &&& spec_fallback_discard(state) == expected
        }),
{
}

} // verus!
