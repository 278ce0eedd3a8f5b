//! Commands to a zero-trust player, and the peer messages they carry.
//!
//! The player holds its own secret key, so commands do not say which player
//! sent them: the player is the source of its own actions. Messages from
//! other players arrive as [`MpRoomCmd::PeerMsg`].

use vstd::prelude::*;
use crate::domain::Action;
use super::phase::MpPhase;

verus! {

/// Kind of an open call on the wire.
#[derive(Debug, Clone, Copy, PartialEq, Eq, Structural)]
pub enum WireCallType {
    Chi,
    Pon,
    Kan,
}

/// A mental-poker protocol message between players. Points travel in their
/// canonical compressed encoding.
#[derive(Debug, Clone, PartialEq, Eq)]
pub enum MentalPokerMsg {
    /// A player's public key share with its proof of knowledge.
    KeyShare { peer_id: Vec<u8>, pk: Vec<u8>, proof: Vec<u8> },
    /// Protocol 2: a player drew a deck position.
    DrawAnnouncement { player: u32, deck_index: u32 },
    /// Protocol 4: a discard.
    Discard { player: u32, deck_index: u32, plaintext: Vec<u8> },
    /// Protocol 5: an open call.
    Call {
        player: u32,
        call_type: WireCallType,
        deck_indices: Vec<u32>,
        plaintexts: Vec<Vec<u8>>,
        from_player: u32,
        from_position_in_meld: u32,
    },
    /// Protocol 6, public part: a concealed kan and its monitor.
    ConcealedKanAnnounce { player: u32, deck_indices: [u32; 4], monitor_player: u32 },
    /// Protocol 6, private part: the four plaintexts, to the monitor only.
    ConcealedKanReveal { plaintexts: [Vec<u8>; 4] },
    /// An added kan.
    Shouminkan { player: u32, target_meld_idx: u32, new_deck_index: u32, new_plaintext: Vec<u8> },
}

/// The phase in which a peer message is taken in: key shares during the key
/// exchange, everything else while playing.
pub open spec fn handled_in(msg: MentalPokerMsg) -> MpPhase {
    match msg {
        MentalPokerMsg::KeyShare { .. } => MpPhase::KeyExchange,
        _ => MpPhase::Playing,
    }
}

impl MentalPokerMsg {
    /// Whether a player in `phase` takes this message in (otherwise it is
    /// ignored).
    pub fn accepted_in(&self, phase: MpPhase) -> (r: bool)
        ensures
            r == (phase == handled_in(*self)),
    {
        match self {
            MentalPokerMsg::KeyShare { .. } => phase == MpPhase::KeyExchange,
            _ => phase == MpPhase::Playing,
        }
    }
}

/// A command to the player, from the UI or the peer-to-peer bridge.
#[derive(Debug)]
pub enum MpRoomCmd {
    /// A protocol message from a peer (`from`: its index among the members,
    /// if known).
    PeerMsg { from: Option<usize>, msg: MentalPokerMsg },
    /// A game action chosen in the local UI.
    LocalAction(Action),
    /// Draw this deck position (protocol 2); only on the player's own turn
    /// while playing.
    TriggerDraw { deck_index: u32 },
    /// Reveal this deck position to everyone (protocol 3), e.g. a dora
    /// indicator.
    TriggerReveal { deck_index: u32 },
    /// Discard this deck position (protocol 4): drawn, and not yet discarded
    /// or melded.
    Discard { deck_index: u32 },
    /// Call a discard (protocol 5).
    Call { call_type: WireCallType, deck_indices: Vec<u32>, from_player: u32, from_position_in_meld: u32 },
    /// Declare a concealed kan with its monitor (protocol 6).
    ConcealedKan { deck_indices: [u32; 4], monitor_player: u32 },
    /// Upgrade a pon to a kan.
    Shouminkan { target_meld_idx: u32, new_deck_index: u32 },
    /// Win on a self-drawn tile (protocol 7).
    Tsumo { hand_indices: Vec<u32>, winning_tile_index: u32 },
    /// Win on another player's discard (protocol 7).
    Ron { from_player: u32, hand_indices: Vec<u32>, winning_tile_index: u32 },
    /// Leave the room.
    Disconnect,
    /// A timer tick.
    Tick,
}

/// What a zero-trust player tells the layer above it.
#[derive(Debug, Clone)]
pub enum MpEvent {
    /// The phase changed.
    PhaseChanged { phase: MpPhase },
    /// Shuffle rounds done, of all rounds.
    ShuffleProgress { completed: u32, total: u32 },
    /// A message to send: to every member (`None`) or to one member.
    OutboundMsg { to: Option<usize>, msg: MentalPokerMsg },
    /// Cheating detected, an invalid proof, or an unresponsive peer; with the
    /// suspected member, if known.
    ProtocolError { offender: Option<usize>, reason: String },
    /// This player's own draw is complete (protocol 2), with its tile id.
    DrawComplete { request_id: u128, deck_index: u32, tile_id: usize },
    /// Another player's draw was recorded in the local mirror.
    RemoteDrawObserved { player: u32, deck_index: u32 },
    /// A public reveal is complete (protocol 3).
    RevealComplete { deck_index: u32, tile_id: usize },
    /// A discard was recorded in the local mirror (protocol 4).
    DiscardApplied { player: u32, deck_index: u32, tile_id: usize },
    /// An open call was recorded in the local mirror (protocol 5).
    CallApplied {
        player: u32,
        call_type: WireCallType,
        deck_indices: Vec<u32>,
        tile_ids: Vec<usize>,
        from_player: u32,
    },
    /// A concealed kan was recorded in the local mirror (protocol 6).
    ConcealedKanApplied { player: u32, deck_indices: [u32; 4], monitor_player: u32 },
    /// An added kan was recorded in the local mirror.
    ShouminkanApplied { player: u32, target_meld_idx: u32, new_deck_index: u32, new_tile_id: usize },
    /// The monitor of a concealed kan checked its four tiles.
    MonitorVerified { player: u32, deck_indices: [u32; 4], tile_ids: [usize; 4], all_same: bool },
    /// A win was validated (protocol 7).
    WinValidated {
        player: u32,
        is_tsumo: bool,
        from_player: Option<u32>,
        winning_tile_index: u32,
        winning_tile_id: usize,
        hand_tile_ids: Vec<usize>,
    },
    /// The hand is over.
    GameOver { reason: String },
}

} // verus!
