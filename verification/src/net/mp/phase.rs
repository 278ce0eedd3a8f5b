//! The phases of a zero-trust player.
//!
//! Each phase decides which commands and events the player accepts:
//! - **KeyExchange**: every player broadcasts a key share with a proof; once
//!   all are in, the joint key is aggregated;
//! - **Shuffling**: the joint shuffle, one round per player;
//! - **Playing**: draws, discards, calls, kans, dora reveals;
//! - **GameOver**: the hand is over (draw or win).
//!
//! Transitions go one way only, round the cycle; a command that does not fit
//! the phase is ignored.

use vstd::prelude::*;

verus! {

#[derive(Debug, Clone, Copy, PartialEq, Eq, Hash, Structural)]
pub enum MpPhase {
    /// Every player broadcasts a key share; then the joint key is built.
    KeyExchange,
    /// The joint shuffle, one verified round per player.
    Shuffling,
    /// The hand is being played.
    Playing,
    /// The hand is over; the next one starts with a new key exchange.
    GameOver,
}

/// The one phase that may follow `p`.
pub open spec fn next_phase(p: MpPhase) -> MpPhase {
    match p {
        MpPhase::KeyExchange => MpPhase::Shuffling,
        MpPhase::Shuffling => MpPhase::Playing,
        MpPhase::Playing => MpPhase::GameOver,
        MpPhase::GameOver => MpPhase::KeyExchange,
    }
}

/// A hand is under way: shuffling or playing.
pub open spec fn in_progress(p: MpPhase) -> bool {
    p == MpPhase::Shuffling || p == MpPhase::Playing
}

impl MpPhase {
    /// Whether the phase may move on to `next`.
    pub fn can_transition_to(self, next: MpPhase) -> (r: bool)
        ensures
            r == (next == next_phase(self)),
    {
        match (self, next) {
            (MpPhase::KeyExchange, MpPhase::Shuffling) => true,
            (MpPhase::Shuffling, MpPhase::Playing) => true,
            (MpPhase::Playing, MpPhase::GameOver) => true,
            (MpPhase::GameOver, MpPhase::KeyExchange) => true,
            _ => false,
        }
    }

    /// A protocol error ends the hand: the phase becomes `GameOver`; returns
    /// whether it changed (the UI is told only then).
    pub fn on_protocol_error(&mut self) -> (changed: bool)
        ensures
            *final(self) == MpPhase::GameOver,
            changed == (*old(self) != MpPhase::GameOver),
    {
        let changed = *self != MpPhase::GameOver;
        *self = MpPhase::GameOver;
        changed
    }

    /// Whether a hand is under way (for the UI).
    pub fn is_in_progress(self) -> (r: bool)
        ensures
            r == in_progress(self),
    {
        match self {
            MpPhase::Shuffling | MpPhase::Playing => true,
            _ => false,
        }
    }
}

/// No phase moves to itself, and no allowed step can be taken back.
pub proof fn law_transitions_one_way(a: MpPhase, b: MpPhase)
    ensures
        next_phase(a) != a,
        b == next_phase(a) ==> a != next_phase(b),
{
}

/// Four steps bring every phase back to itself: one hand after another.
pub proof fn law_phase_cycle(p: MpPhase)
    ensures
        next_phase(next_phase(next_phase(next_phase(p)))) == p,
        next_phase(MpPhase::GameOver) == MpPhase::KeyExchange,
{
}

} // verus!
