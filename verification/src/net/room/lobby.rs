//! The room's lobby bookkeeping: who sits where, who is ready, who is host,
//! who reconnects, and what a start, a leave or a reset does to the seats.
//!
//! These functions decide; the room task around them performs the effects
//! they report (sending welcomes and room updates, starting the engine,
//! arming reconnect timers).

use vstd::prelude::*;
use std::collections::HashMap;
use vstd::string::StringExecFns;
use crate::domain::{Seat, seat_at};
use crate::net::p2p::discovery::{digit_char, digit_str};
use crate::net::p2p::host::LobbyDynState;
use crate::net::p2p::mode::RoomMode;
use crate::mental_poker::point::views;
use super::zerotrust::{compute_session_label, sha256_of, session_preimage};

verus! {

broadcast use vstd::std_specs::hash::group_hash_axioms;

/// Seats at a table.
pub const MAX_PLAYERS: usize = 4;

/// Where the room is in its life.
#[derive(Debug, Clone, Copy, PartialEq, Eq, Structural)]
pub enum RoomLifecycle {
    Lobby,
    InGame,
    GameEnd,
}

/// Why a join was refused.
#[derive(Debug, Clone, Copy, PartialEq, Eq, Structural)]
pub enum JoinError {
    /// Four players are in already.
    RoomFull,
    /// The hand has started; only reconnects are accepted.
    AlreadyInGame,
    /// The token matches no player who left.
    InvalidReconnectToken,
}

/// What a refused joiner is told.
pub open spec fn join_error_text(e: JoinError) -> Seq<char> {
    match e {
        JoinError::RoomFull => "房间已满"@,
        JoinError::AlreadyInGame => "房间已开局"@,
        JoinError::InvalidReconnectToken => "重连 token 无效"@,
    }
}

impl JoinError {
    /// What a refused joiner is told.
    pub fn message(&self) -> (r: &'static str)
        ensures
            r@ == join_error_text(*self),
    {
        match self {
            JoinError::RoomFull => "房间已满",
            JoinError::AlreadyInGame => "房间已开局",
            JoinError::InvalidReconnectToken => "重连 token 无效",
        }
    }
}

/// One seat of the room.
#[derive(Debug, Clone)]
pub struct Slot {
    pub id: u32,
    pub nickname: String,
    pub ready: bool,
    pub seat: Option<Seat>,
    pub is_ai: bool,
    pub is_host: bool,
    pub connected: bool,
    /// A channel to the player's client is open.
    pub online: bool,
    /// The token with which the player can reconnect.
    pub reconnect_token: u128,
    /// The player dropped and the reconnect grace period runs.
    pub in_grace: bool,
}

/// A room's lobby state.
#[derive(Debug)]
pub struct Room {
    pub room_id: String,
    pub state: RoomLifecycle,
    pub slots: Vec<Slot>,
    pub next_player_id: u32,
    pub mode: RoomMode,
    /// The host's nickname until the host's own client joins.
    pub pending_host_nickname: Option<String>,
    /// Player id to peer id, for the zero-trust start.
    pub player_peers: HashMap<u32, Vec<u8>>,
    /// The host's own peer id, kept until the host's slot exists.
    pub pending_host_peer_id: Option<Vec<u8>>,
}

/// A successful join.
#[derive(Debug, Clone, Copy, PartialEq, Eq)]
pub struct Joined {
    pub player_id: u32,
    pub reconnect_token: u128,
    /// The player took back an existing seat.
    pub reconnected: bool,
    /// The seat, if the hand had assigned one.
    pub seat: Option<Seat>,
}

/// `i` is the first slot holding player `id`.
pub open spec fn first_with_id(slots: Seq<Slot>, id: u32, i: int) -> bool {
    0 <= i < slots.len() && slots[i].id == id && forall|j: int| 0 <= j < i ==> slots[j].id != id
}

/// `i` is the first slot holding reconnect token `t`.
pub open spec fn first_with_token(slots: Seq<Slot>, t: u128, i: int) -> bool {
    0 <= i < slots.len() && slots[i].reconnect_token == t && forall|j: int|
        0 <= j < i ==> slots[j].reconnect_token != t
}

/// `i` is the first slot sitting at `seat`.
pub open spec fn first_at_seat(slots: Seq<Slot>, seat: Seat, i: int) -> bool {
    0 <= i < slots.len() && slots[i].seat == Some(seat) && forall|j: int|
        0 <= j < i ==> slots[j].seat != Some(seat)
}

pub open spec fn has_id(slots: Seq<Slot>, id: u32) -> bool {
    exists|i: int| 0 <= i < slots.len() && slots[i].id == id
}

impl Room {
    /// The peer ids known for players, by player id.
    pub open spec fn peers(&self) -> Map<u32, Seq<u8>> {
        self.player_peers@.map_values(|v: Vec<u8>| v@)
    }

    /// At most four seats; ids distinct and below the next id; the host is
    /// the first seat and the only one, and never an AI.
    pub open spec fn wf(&self) -> bool {
        &&& self.slots@.len() <= MAX_PLAYERS
        &&& forall|i: int, j: int|
            0 <= i < j < self.slots@.len() ==> self.slots@[i].id != self.slots@[j].id
        &&& forall|i: int| 0 <= i < self.slots@.len() ==> self.slots@[i].id < self.next_player_id
        &&& forall|i: int| 0 <= i < self.slots@.len() ==> (self.slots@[i].is_host <==> i == 0)
        &&& forall|i: int| 0 <= i < self.slots@.len() ==> !(self.slots@[i].is_host && self.slots@[i].is_ai)
    }

    /// A fresh room in the lobby, waiting for its host to join.
    pub fn new(room_id: String, host_nickname: String) -> (r: Self)
        ensures
            r.wf(),
            r.room_id == room_id,
            r.state == RoomLifecycle::Lobby,
            r.slots@.len() == 0,
            r.next_player_id == 1,
            r.mode == RoomMode::Standard,
            r.pending_host_nickname == Some(host_nickname),
            r.player_peers@ == Map::<u32, Vec<u8>>::empty(),
            r.pending_host_peer_id is None,
    {
        Room {
            room_id,
            state: RoomLifecycle::Lobby,
            slots: Vec::new(),
            next_player_id: 1,
            mode: RoomMode::Standard,
            pending_host_nickname: Some(host_nickname),
            player_peers: HashMap::new(),
            pending_host_peer_id: None,
        }
    }

    /// The first slot holding player `id`.
    fn find(&self, id: u32) -> (r: Option<usize>)
        ensures
            match r {
                Some(i) => first_with_id(self.slots@, id, i as int),
                None => !has_id(self.slots@, id),
            },
    {
        let mut i: usize = 0;
        while i < self.slots.len()
            invariant
                i <= self.slots@.len(),
                forall|j: int| 0 <= j < i ==> self.slots@[j].id != id,
            decreases self.slots@.len() - i,
        {
            if self.slots[i].id == id {
                return Some(i);
            }
            i = i + 1;
        }
        None
    }

    /// A new player id.
    pub fn alloc_id(&mut self) -> (r: u32)
        requires
            old(self).next_player_id < u32::MAX,
        ensures
            r == old(self).next_player_id,
            final(self).next_player_id == old(self).next_player_id + 1,
            final(self).slots == old(self).slots,
            final(self).state == old(self).state,
            final(self).mode == old(self).mode,
            final(self).room_id == old(self).room_id,
            final(self).pending_host_nickname == old(self).pending_host_nickname,
            final(self).player_peers == old(self).player_peers,
            final(self).pending_host_peer_id == old(self).pending_host_peer_id,
    {
        let id = self.next_player_id;
        self.next_player_id = self.next_player_id + 1;
        id
    }

    /// Whether `player_id` is the host.
    pub fn is_host(&self, player_id: u32) -> (r: bool)
        ensures
            r == exists|i: int|
                0 <= i < self.slots@.len() && self.slots@[i].id == player_id && self.slots@[i].is_host,
    {
        let mut i: usize = 0;
        while i < self.slots.len()
            invariant
                i <= self.slots@.len(),
                forall|j: int| 0 <= j < i ==> !(self.slots@[j].id == player_id && self.slots@[j].is_host),
            decreases self.slots@.len() - i,
        {
            if self.slots[i].id == player_id && self.slots[i].is_host {
                return true;
            }
            i = i + 1;
        }
        false
    }

    /// The seat of `player_id`, once the hand has assigned one.
    pub fn player_seat(&self, player_id: u32) -> (r: Option<Seat>)
        ensures
            forall|i: int| first_with_id(self.slots@, player_id, i) ==> r == self.slots@[i].seat,
            !has_id(self.slots@, player_id) ==> r is None,
    {
        match self.find(player_id) {
            Some(i) => self.slots[i].seat,
            None => None,
        }
    }

    /// Whether the AI plays `seat`: its player is an AI, or dropped for good;
    /// an empty seat counts as AI.
    pub fn is_seat_ai(&self, seat: Seat) -> (r: bool)
        ensures
            forall|i: int| first_at_seat(self.slots@, seat, i) ==>
                r == (self.slots@[i].is_ai || (!self.slots@[i].connected && !self.slots@[i].in_grace)),
            (forall|i: int| 0 <= i < self.slots@.len() ==> self.slots@[i].seat != Some(seat)) ==> r,
    {
        let mut i: usize = 0;
        while i < self.slots.len()
            invariant
                i <= self.slots@.len(),
                forall|j: int| 0 <= j < i ==> self.slots@[j].seat != Some(seat),
            decreases self.slots@.len() - i,
        {
            if self.slots[i].seat == Some(seat) {
                let s = &self.slots[i];
                return s.is_ai || (!s.connected && !s.in_grace);
            }
            i = i + 1;
        }
        true
    }
}

impl Room {
    /// The first slot holding reconnect token `t`.
    fn find_token(&self, t: u128) -> (r: Option<usize>)
        ensures
            match r {
                Some(i) => first_with_token(self.slots@, t, i as int),
                None => forall|i: int| 0 <= i < self.slots@.len() ==> self.slots@[i].reconnect_token != t,
            },
    {
        let mut i: usize = 0;
        while i < self.slots.len()
            invariant
                i <= self.slots@.len(),
                forall|j: int| 0 <= j < i ==> self.slots@[j].reconnect_token != t,
            decreases self.slots@.len() - i,
        {
            if self.slots[i].reconnect_token == t {
                return Some(i);
            }
            i = i + 1;
        }
        None
    }

    /// A client joins, or reconnects with its token.
    ///
    /// A token held by a seat gives that seat back (whatever the room's
    /// state): the player is connected again, takes the seat back from the AI,
    /// and keeps id, seat and token. Otherwise a new player joins, only in the
    /// lobby and only while a seat is free; the first to join is the host
    /// (ready from the start), and gets the host's peer id if it is known.
    /// `fresh_token` is the new player's reconnect token.
    pub fn handle_join(&mut self, nickname: String, reconnect_token: Option<u128>, fresh_token: u128) -> (r: Result<Joined, JoinError>)
        requires
            old(self).wf(),
            old(self).next_player_id < u32::MAX,
        ensures
            final(self).wf(),
            final(self).state == old(self).state,
            final(self).mode == old(self).mode,
            final(self).room_id == old(self).room_id,
            final(self).pending_host_peer_id == old(self).pending_host_peer_id,
            // a reconnect
            forall|t: u128, i: int| reconnect_token == Some(t) && first_with_token(old(self).slots@, t, i) ==> {
                let s = old(self).slots@[i];
                &&& r == Ok::<Joined, JoinError>(Joined { player_id: s.id, reconnect_token: t, reconnected: true, seat: s.seat })
                &&& final(self).slots@ == old(self).slots@.update(i, Slot {
                    nickname,
                    connected: true,
                    is_ai: false,
                    online: true,
                    in_grace: false,
                    ..s
                })
                &&& final(self).next_player_id == old(self).next_player_id
                &&& final(self).player_peers == old(self).player_peers
                &&& final(self).pending_host_nickname == old(self).pending_host_nickname
            },
            // no seat holds the token (or none was given)
            (forall|i: int| 0 <= i < old(self).slots@.len() && reconnect_token is Some
                ==> old(self).slots@[i].reconnect_token != reconnect_token->0) ==> {
                if old(self).state != RoomLifecycle::Lobby {
                    &&& r == Err::<Joined, JoinError>(JoinError::AlreadyInGame)
                    &&& final(self).slots == old(self).slots
                    &&& final(self).next_player_id == old(self).next_player_id
                    &&& final(self).player_peers == old(self).player_peers
                    &&& final(self).pending_host_nickname == old(self).pending_host_nickname
                } else if old(self).slots@.len() >= MAX_PLAYERS {
                    &&& r == Err::<Joined, JoinError>(JoinError::RoomFull)
                    &&& final(self).slots == old(self).slots
                    &&& final(self).next_player_id == old(self).next_player_id
                    &&& final(self).player_peers == old(self).player_peers
                    &&& final(self).pending_host_nickname == old(self).pending_host_nickname
                } else {
                    let id = old(self).next_player_id;
                    let is_host = old(self).slots@.len() == 0;
                    &&& r == Ok::<Joined, JoinError>(Joined { player_id: id, reconnect_token: fresh_token, reconnected: false, seat: None })
                    &&& final(self).slots@ == old(self).slots@.push(Slot {
                        id,
                        nickname,
                        ready: is_host,
                        seat: None,
                        is_ai: false,
                        is_host,
                        connected: true,
                        online: true,
                        reconnect_token: fresh_token,
                        in_grace: false,
                    })
                    &&& final(self).next_player_id == id + 1
                    &&& final(self).pending_host_nickname == (if is_host { None } else { old(self).pending_host_nickname })
                    &&& final(self).peers() == (match old(self).pending_host_peer_id {
                        Some(p) => if is_host { old(self).peers().insert(id, p@) } else { old(self).peers() },
                        None => old(self).peers(),
                    })
                }
            },
    {
        if let Some(token) = reconnect_token {
            if let Some(idx) = self.find_token(token) {
                let s = &self.slots[idx];
                let (id, seat) = (s.id, s.seat);
                let slot = Slot {
                    id: s.id,
                    nickname,
                    ready: s.ready,
                    seat: s.seat,
                    is_ai: false,
                    is_host: s.is_host,
                    connected: true,
                    online: true,
                    reconnect_token: s.reconnect_token,
                    in_grace: false,
                };
                self.slots.set(idx, slot);
                return Ok(Joined { player_id: id, reconnect_token: token, reconnected: true, seat });
            }
        }
        if self.state != RoomLifecycle::Lobby {
            return Err(JoinError::AlreadyInGame);
        }
        if self.slots.len() >= MAX_PLAYERS {
            return Err(JoinError::RoomFull);
        }
        let id = self.alloc_id();
        let is_host = self.slots.len() == 0;
        if is_host {
            self.pending_host_nickname = None;
        }
        self.slots.push(Slot {
            id,
            nickname,
            ready: is_host,
            seat: None,
            is_ai: false,
            is_host,
            connected: true,
            online: true,
            reconnect_token: fresh_token,
            in_grace: false,
        });
        if is_host {
            match &self.pending_host_peer_id {
                Some(p) => {
                    let bytes = p.clone();
                    let ghost before = self.player_peers@;
                    self.player_peers.insert(id, bytes);
                    proof {
                        assert(self.player_peers@.map_values(|v: Vec<u8>| v@) =~= before.map_values(|v: Vec<u8>| v@).insert(id, p@));
                    }
                },
                None => {},
            }
        }
        Ok(Joined { player_id: id, reconnect_token: fresh_token, reconnected: false, seat: None })
    }
}

/// The slot with its seat cleared and its readiness reset (the host is
/// always ready).
pub open spec fn reset_slot(s: Slot) -> Slot {
    Slot { seat: None, ready: s.is_host, ..s }
}

/// The human slots, in order, reset for a new lobby; AI slots are dropped.
pub open spec fn humans_reset(s: Seq<Slot>) -> Seq<Slot>
    decreases s.len(),
{
    if s.len() == 0 {
        Seq::empty()
    } else {
        let r = humans_reset(s.drop_last());
        if s.last().is_ai {
            r
        } else {
            r.push(reset_slot(s.last()))
        }
    }
}

/// The nickname of the AI that fills seat `k` (1-based).
pub open spec fn ai_nickname(k: int) -> Seq<char> {
    "AI "@ + seq![digit_char(k)]
}

/// The nickname of a player who left during a hand and whose seat the AI
/// took over.
pub open spec fn left_nickname(nick: Seq<char>) -> Seq<char> {
    "AI ("@ + nick + " 离开)"@
}

/// What a leave did.
#[derive(Debug, Clone, Copy, PartialEq, Eq, Structural)]
pub enum LeaveOutcome {
    /// No such player.
    Unknown,
    /// The host left: the room is dissolved.
    Dissolved,
    /// The seat was freed (lobby, or between games).
    Removed,
    /// During a hand the AI took the seat over.
    TakenOverByAi,
}

/// What a start request did.
#[derive(Debug)]
pub enum StartOutcome {
    /// Not in the lobby, or not asked by the host.
    Ignored,
    /// Some player is not ready.
    NotAllReady,
    /// The table needs one to four players.
    BadPlayerCount,
    /// A zero-trust hand starts: every human gets these to start its player.
    ZeroTrust { all_peer_ids: Vec<Vec<u8>>, session_label: Vec<u8>, deck_size: u32, cnc_k_rounds: u32 },
    /// The zero-trust start must wait: the slot at `index` has no peer id yet.
    ZeroTrustMissingPeer { index: usize },
    /// A host-authoritative hand starts; `downgraded` when a zero-trust room
    /// had fewer than four humans and fell back to AI-filled standard play.
    Standard { downgraded: bool },
}

proof fn lemma_humans_reset(s: Seq<Slot>)
    requires
        forall|i: int, j: int| 0 <= i < j < s.len() ==> s[i].id != s[j].id,
        forall|i: int| 0 <= i < s.len() ==> (s[i].is_host <==> i == 0),
        forall|i: int| 0 <= i < s.len() ==> !(s[i].is_host && s[i].is_ai),
    ensures
        humans_reset(s).len() <= s.len(),
        forall|k: int| 0 <= k < humans_reset(s).len() ==> exists|j: int|
            0 <= j < s.len() && (#[trigger] humans_reset(s)[k]).id == s[j].id,
        forall|a: int, b: int| 0 <= a < b < humans_reset(s).len() ==> humans_reset(s)[a].id != humans_reset(s)[b].id,
        forall|k: int| 0 <= k < humans_reset(s).len() ==> ((#[trigger] humans_reset(s)[k]).is_host <==> k == 0),
        forall|k: int| 0 <= k < humans_reset(s).len() ==> !(#[trigger] humans_reset(s)[k]).is_ai,
        forall|k: int| 0 <= k < humans_reset(s).len() ==> (#[trigger] humans_reset(s)[k]).seat is None,
        forall|k: int| 0 <= k < humans_reset(s).len() ==> (#[trigger] humans_reset(s)[k]).ready == humans_reset(s)[k].is_host,
    decreases s.len(),
{
    if s.len() > 0 {
        let d = s.drop_last();
        lemma_humans_reset(d);
        let r = humans_reset(d);
        let x = s.last();
        if s.len() == 1 {
            assert(d.len() == 0);
            assert(r.len() == 0);
            assert(!x.is_ai);
            assert(humans_reset(s) == r.push(reset_slot(x)));
        } else if !x.is_ai {
            let rr = r.push(reset_slot(x));
            assert(humans_reset(s) == rr);
            assert forall|k: int| 0 <= k < rr.len() implies exists|j: int| 0 <= j < s.len() && (#[trigger] rr[k]).id == s[j].id by {
                if k < r.len() {
                    let j = choose|j: int| 0 <= j < d.len() && r[k].id == d[j].id;
                    assert(rr[k].id == s[j].id);
                } else {
                    assert(rr[k].id == s[s.len() - 1].id);
                }
            }
            assert forall|a: int, b: int| 0 <= a < b < rr.len() implies rr[a].id != rr[b].id by {
                if b == r.len() {
                    let j = choose|j: int| 0 <= j < d.len() && r[a].id == d[j].id;
                    assert(s[j].id != s[s.len() - 1].id);
                }
            }
            if r.len() == 0 {
                assert(!d[0].is_ai);
                assert(humans_reset(d).len() > 0) by {
                    lemma_first_kept(d);
                }
            }
        }
    }
}

/// A slot list whose first slot is human keeps that slot first.
proof fn lemma_first_kept(s: Seq<Slot>)
    requires
        s.len() > 0,
        !s[0].is_ai,
    ensures
        humans_reset(s).len() > 0,
        humans_reset(s)[0] == reset_slot(s[0]),
    decreases s.len(),
{
    if s.len() > 1 {
        let d = s.drop_last();
        lemma_first_kept(d);
        assert(d[0] == s[0]);
    } else {
        assert(s.drop_last().len() == 0);
        assert(humans_reset(s.drop_last()) == Seq::<Slot>::empty());
        assert(s.last() == s[0]);
    }
}

impl Room {
    /// A player (not the host, who is always ready) marks itself ready or
    /// not. Only in the lobby; the result says whether to broadcast a room
    /// update.
    pub fn handle_ready(&mut self, player_id: u32, ready: bool) -> (broadcast: bool)
        requires
            old(self).wf(),
        ensures
            final(self).wf(),
            broadcast == (old(self).state == RoomLifecycle::Lobby),
            final(self).state == old(self).state,
            final(self).next_player_id == old(self).next_player_id,
            final(self).mode == old(self).mode,
            final(self).player_peers == old(self).player_peers,
            old(self).state != RoomLifecycle::Lobby ==> final(self).slots == old(self).slots,
            old(self).state == RoomLifecycle::Lobby ==> {
                &&& forall|i: int| first_with_id(old(self).slots@, player_id, i) && !old(self).slots@[i].is_host
                    ==> final(self).slots@ == old(self).slots@.update(i, Slot { ready, ..old(self).slots@[i] })
                &&& forall|i: int| first_with_id(old(self).slots@, player_id, i) && old(self).slots@[i].is_host
                    ==> final(self).slots == old(self).slots
                &&& !has_id(old(self).slots@, player_id) ==> final(self).slots == old(self).slots
            },
    {
        if self.state != RoomLifecycle::Lobby {
            return false;
        }
        match self.find(player_id) {
            Some(i) => {
                if !self.slots[i].is_host {
                    let s = &self.slots[i];
                    let slot = Slot {
                        id: s.id,
                        nickname: s.nickname.clone(),
                        ready,
                        seat: s.seat,
                        is_ai: s.is_ai,
                        is_host: s.is_host,
                        connected: s.connected,
                        online: s.online,
                        reconnect_token: s.reconnect_token,
                        in_grace: s.in_grace,
                    };
                    self.slots.set(i, slot);
                }
            },
            None => {},
        }
        true
    }

    /// Whether `player_id` may change the rules now: the host, in the lobby.
    pub fn may_update_config(&self, player_id: u32) -> (r: bool)
        ensures
            r == (self.state == RoomLifecycle::Lobby && exists|i: int|
                0 <= i < self.slots@.len() && self.slots@[i].id == player_id && self.slots@[i].is_host),
    {
        self.state == RoomLifecycle::Lobby && self.is_host(player_id)
    }

    /// A player leaves. The host's leaving dissolves the room; another
    /// player's seat is freed in the lobby or between games, and taken over
    /// by the AI during a hand.
    pub fn handle_leave(&mut self, player_id: u32) -> (r: LeaveOutcome)
        requires
            old(self).wf(),
        ensures
            final(self).wf(),
            final(self).next_player_id == old(self).next_player_id,
            final(self).mode == old(self).mode,
            final(self).player_peers == old(self).player_peers,
            !has_id(old(self).slots@, player_id) ==> {
                &&& r == LeaveOutcome::Unknown
                &&& final(self).slots == old(self).slots
                &&& final(self).state == old(self).state
            },
            forall|i: int| first_with_id(old(self).slots@, player_id, i) ==> {
                let s = old(self).slots@[i];
                if s.is_host {
                    &&& r == LeaveOutcome::Dissolved
                    &&& final(self).slots@.len() == 0
                    &&& final(self).state == RoomLifecycle::Lobby
                } else if old(self).state != RoomLifecycle::InGame {
                    &&& r == LeaveOutcome::Removed
                    &&& final(self).slots@ == old(self).slots@.remove(i)
                    &&& final(self).state == old(self).state
                } else {
                    let n = final(self).slots@[i];
                    &&& r == LeaveOutcome::TakenOverByAi
                    &&& final(self).state == old(self).state
                    &&& final(self).slots@.len() == old(self).slots@.len()
                    &&& forall|j: int| 0 <= j < old(self).slots@.len() && j != i ==> final(self).slots@[j] == old(self).slots@[j]
                    &&& n.id == s.id && n.ready == s.ready && n.seat == s.seat && n.is_host == s.is_host
                    &&& n.reconnect_token == s.reconnect_token && n.in_grace == s.in_grace
                    &&& n.is_ai && !n.connected && !n.online
                    &&& n.nickname@ == left_nickname(s.nickname@)
                }
            },
    {
        let i = match self.find(player_id) {
            Some(i) => i,
            None => {
                return LeaveOutcome::Unknown;
            },
        };
        if self.slots[i].is_host {
            self.slots.clear();
            self.state = RoomLifecycle::Lobby;
            return LeaveOutcome::Dissolved;
        }
        match self.state {
            RoomLifecycle::Lobby | RoomLifecycle::GameEnd => {
                let ghost before = self.slots@;
                self.slots.remove(i);
                proof {
                    assert forall|a: int| 0 <= a < self.slots@.len() implies (self.slots@[a].is_host <==> a == 0) by {
                        if a < i {
                            assert(self.slots@[a] == before[a]);
                        } else {
                            assert(self.slots@[a] == before[a + 1]);
                        }
                    }
                    assert forall|a: int, b: int| 0 <= a < b < self.slots@.len() implies self.slots@[a].id != self.slots@[b].id by {
                        let a0 = if a < i { a } else { a + 1 };
                        let b0 = if b < i { b } else { b + 1 };
                        assert(self.slots@[a] == before[a0]);
                        assert(self.slots@[b] == before[b0]);
                    }
                    assert forall|a: int| 0 <= a < self.slots@.len() implies self.slots@[a].id < self.next_player_id by {
                        let a0 = if a < i { a } else { a + 1 };
                        assert(self.slots@[a] == before[a0]);
                    }
                    assert forall|a: int| 0 <= a < self.slots@.len() implies !(self.slots@[a].is_host && self.slots@[a].is_ai) by {
                        let a0 = if a < i { a } else { a + 1 };
                        assert(self.slots@[a] == before[a0]);
                    }
                }
                LeaveOutcome::Removed
            },
            RoomLifecycle::InGame => {
                let s = &self.slots[i];
                let mut nick = String::from_str("AI (");
                nick.append(s.nickname.as_str());
                nick.append(" 离开)");
                let slot = Slot {
                    id: s.id,
                    nickname: nick,
                    ready: s.ready,
                    seat: s.seat,
                    is_ai: true,
                    is_host: s.is_host,
                    connected: false,
                    online: false,
                    reconnect_token: s.reconnect_token,
                    in_grace: s.in_grace,
                };
                self.slots.set(i, slot);
                LeaveOutcome::TakenOverByAi
            },
        }
    }

    /// Back to the lobby: AI seats go, humans keep their order but lose their
    /// seats, and everyone but the host must ready again.
    pub fn reset_to_lobby(&mut self)
        requires
            old(self).wf(),
        ensures
            final(self).wf(),
            final(self).state == RoomLifecycle::Lobby,
            final(self).slots@ == humans_reset(old(self).slots@),
            final(self).next_player_id == old(self).next_player_id,
            final(self).mode == old(self).mode,
            final(self).player_peers == old(self).player_peers,
    {
        let ghost old_slots = self.slots@;
        proof {
            lemma_humans_reset(old_slots);
        }
        let mut kept: Vec<Slot> = Vec::new();
        let mut i: usize = 0;
        proof {
            assert(old_slots.take(0) =~= Seq::<Slot>::empty());
        }
        while i < self.slots.len()
            invariant
                self.slots@ == old_slots,
                i <= old_slots.len(),
                kept@ == humans_reset(old_slots.take(i as int)),
            decreases old_slots.len() - i,
        {
            let s = &self.slots[i];
            proof {
                assert(old_slots.take(i + 1).drop_last() =~= old_slots.take(i as int));
                assert(old_slots.take(i + 1).last() == old_slots[i as int]);
            }
            if !s.is_ai {
                kept.push(Slot {
                    id: s.id,
                    nickname: s.nickname.clone(),
                    ready: s.is_host,
                    seat: None,
                    is_ai: s.is_ai,
                    is_host: s.is_host,
                    connected: s.connected,
                    online: s.online,
                    reconnect_token: s.reconnect_token,
                    in_grace: s.in_grace,
                });
            }
            i = i + 1;
        }
        proof {
            assert(old_slots.take(old_slots.len() as int) =~= old_slots);
            let r = humans_reset(old_slots);
            assert forall|a: int| 0 <= a < r.len() implies r[a].id < self.next_player_id by {
                let j = choose|j: int| 0 <= j < old_slots.len() && r[a].id == old_slots[j].id;
            }
        }
        self.slots = kept;
        self.state = RoomLifecycle::Lobby;
    }

    /// "Back to room" after a game: only between games.
    pub fn handle_back_to_room(&mut self, _player_id: u32) -> (r: bool)
        requires
            old(self).wf(),
        ensures
            final(self).wf(),
            r == (old(self).state == RoomLifecycle::GameEnd),
            r ==> final(self).state == RoomLifecycle::Lobby && final(self).slots@ == humans_reset(old(self).slots@),
            !r ==> final(self).state == old(self).state && final(self).slots == old(self).slots,
            final(self).next_player_id == old(self).next_player_id,
            final(self).mode == old(self).mode,
            final(self).player_peers == old(self).player_peers,
    {
        if self.state != RoomLifecycle::GameEnd {
            return false;
        }
        self.reset_to_lobby();
        true
    }

    /// The host starts another game with the same seats, between games. On
    /// `true` the room is in a game again and a new engine must be started.
    pub fn handle_continue_game(&mut self, player_id: u32) -> (r: bool)
        requires
            old(self).wf(),
        ensures
            final(self).wf(),
            r == (old(self).state == RoomLifecycle::GameEnd && exists|i: int|
                0 <= i < old(self).slots@.len() && old(self).slots@[i].id == player_id && old(self).slots@[i].is_host),
            final(self).state == (if r { RoomLifecycle::InGame } else { old(self).state }),
            final(self).slots == old(self).slots,
            final(self).next_player_id == old(self).next_player_id,
            final(self).mode == old(self).mode,
            final(self).player_peers == old(self).player_peers,
    {
        if self.state != RoomLifecycle::GameEnd {
            return false;
        }
        if !self.is_host(player_id) {
            return false;
        }
        self.state = RoomLifecycle::InGame;
        true
    }

    /// The transport lost a player: the channel is gone and the reconnect
    /// grace period starts (the player still shows as connected meanwhile).
    pub fn mark_disconnected(&mut self, player_id: u32)
        requires
            old(self).wf(),
        ensures
            final(self).wf(),
            final(self).state == old(self).state,
            final(self).next_player_id == old(self).next_player_id,
            final(self).mode == old(self).mode,
            final(self).player_peers == old(self).player_peers,
            !has_id(old(self).slots@, player_id) ==> final(self).slots == old(self).slots,
            forall|i: int| first_with_id(old(self).slots@, player_id, i) ==> final(self).slots@ == old(self).slots@.update(
                i,
                Slot { online: false, in_grace: true, ..old(self).slots@[i] },
            ),
    {
        match self.find(player_id) {
            Some(i) => {
                let s = &self.slots[i];
                let slot = Slot {
                    id: s.id,
                    nickname: s.nickname.clone(),
                    ready: s.ready,
                    seat: s.seat,
                    is_ai: s.is_ai,
                    is_host: s.is_host,
                    connected: s.connected,
                    online: false,
                    reconnect_token: s.reconnect_token,
                    in_grace: true,
                };
                self.slots.set(i, slot);
            },
            None => {},
        }
    }

    /// The grace period ran out: a player who has not reconnected is
    /// disconnected for good (the AI plays the seat). The result says whether
    /// that happened.
    pub fn on_reconnect_grace_timeout(&mut self, player_id: u32) -> (r: bool)
        requires
            old(self).wf(),
        ensures
            final(self).wf(),
            final(self).state == old(self).state,
            final(self).next_player_id == old(self).next_player_id,
            final(self).mode == old(self).mode,
            final(self).player_peers == old(self).player_peers,
            !has_id(old(self).slots@, player_id) ==> !r && final(self).slots == old(self).slots,
            forall|i: int| first_with_id(old(self).slots@, player_id, i) ==> {
                let s = old(self).slots@[i];
                &&& r == (s.in_grace && !s.online)
                &&& r ==> final(self).slots@ == old(self).slots@.update(i, Slot { connected: false, in_grace: false, ..s })
                &&& !r ==> final(self).slots == old(self).slots
            },
    {
        match self.find(player_id) {
            Some(i) => {
                let s = &self.slots[i];
                if s.in_grace && !s.online {
                    let slot = Slot {
                        id: s.id,
                        nickname: s.nickname.clone(),
                        ready: s.ready,
                        seat: s.seat,
                        is_ai: s.is_ai,
                        is_host: s.is_host,
                        connected: false,
                        online: s.online,
                        reconnect_token: s.reconnect_token,
                        in_grace: false,
                    };
                    self.slots.set(i, slot);
                    true
                } else {
                    false
                }
            },
            None => false,
        }
    }

    /// The host's own peer id becomes known: kept for when the host joins,
    /// and recorded for the host's slot if it exists.
    pub fn set_local_peer_id(&mut self, peer_id_bytes: Vec<u8>)
        requires
            old(self).wf(),
        ensures
            final(self).wf(),
            final(self).pending_host_peer_id == Some(peer_id_bytes),
            final(self).slots == old(self).slots,
            final(self).state == old(self).state,
            final(self).next_player_id == old(self).next_player_id,
            final(self).mode == old(self).mode,
            final(self).peers() == (if old(self).slots@.len() > 0 {
                old(self).peers().insert(old(self).slots@[0].id, peer_id_bytes@)
            } else {
                old(self).peers()
            }),
    {
        let copy = peer_id_bytes.clone();
        self.pending_host_peer_id = Some(peer_id_bytes);
        if self.slots.len() > 0 {
            let host_id = self.slots[0].id;
            let ghost before = self.player_peers@;
            self.player_peers.insert(host_id, copy);
            proof {
                assert(self.player_peers@.map_values(|v: Vec<u8>| v@) =~= before.map_values(|v: Vec<u8>| v@).insert(host_id, peer_id_bytes@));
            }
        }
    }

    /// Records a player's peer id.
    pub fn associate_peer(&mut self, player_id: u32, peer_id_bytes: Vec<u8>)
        requires
            old(self).wf(),
        ensures
            final(self).wf(),
            final(self).peers() == old(self).peers().insert(player_id, peer_id_bytes@),
            final(self).slots == old(self).slots,
            final(self).state == old(self).state,
            final(self).next_player_id == old(self).next_player_id,
            final(self).mode == old(self).mode,
            final(self).pending_host_peer_id == old(self).pending_host_peer_id,
    {
        let ghost before = self.player_peers@;
        let ghost bytes = peer_id_bytes@;
        self.player_peers.insert(player_id, peer_id_bytes);
        proof {
            assert(self.player_peers@.map_values(|v: Vec<u8>| v@) =~= before.map_values(|v: Vec<u8>| v@).insert(player_id, bytes));
        }
    }
}

/// Every slot is ready.
pub open spec fn all_ready(s: Seq<Slot>) -> bool {
    forall|i: int| 0 <= i < s.len() ==> s[i].ready
}

/// `i` is the first slot whose player has no known peer id.
pub open spec fn first_without_peer(s: Seq<Slot>, peers: Map<u32, Seq<u8>>, i: int) -> bool {
    0 <= i < s.len() && !peers.contains_key(s[i].id) && forall|j: int|
        0 <= j < i ==> peers.contains_key(s[j].id)
}

impl Room {
    /// Gives every slot the seat of its position (East first).
    fn assign_seats(&mut self)
        requires
            old(self).wf(),
        ensures
            final(self).wf(),
            final(self).slots@.len() == old(self).slots@.len(),
            forall|i: int| 0 <= i < old(self).slots@.len() ==> #[trigger] final(self).slots@[i] == (Slot {
                seat: Some(seat_at(i)),
                ..old(self).slots@[i]
            }),
            final(self).state == old(self).state,
            final(self).next_player_id == old(self).next_player_id,
            final(self).mode == old(self).mode,
            final(self).room_id == old(self).room_id,
            final(self).player_peers == old(self).player_peers,
    {
        let ghost before = self.slots@;
        let ghost st = self.state;
        let ghost nx = self.next_player_id;
        let ghost md = self.mode;
        let ghost rid = self.room_id;
        let ghost pp = self.player_peers;
        let mut i: usize = 0;
        while i < self.slots.len()
            invariant
                self.wf(),
                self.state == st,
                self.next_player_id == nx,
                self.mode == md,
                self.room_id == rid,
                self.player_peers == pp,
                self.slots@.len() == before.len(),
                before.len() <= MAX_PLAYERS,
                i <= before.len(),
                forall|j: int| 0 <= j < i ==> #[trigger] self.slots@[j] == (Slot { seat: Some(seat_at(j)), ..before[j] }),
                forall|j: int| i <= j < before.len() ==> #[trigger] self.slots@[j] == before[j],
            decreases before.len() - i,
        {
            let s = &self.slots[i];
            let slot = Slot {
                id: s.id,
                nickname: s.nickname.clone(),
                ready: s.ready,
                seat: Some(Seat::from_index(i)),
                is_ai: s.is_ai,
                is_host: s.is_host,
                connected: s.connected,
                online: s.online,
                reconnect_token: s.reconnect_token,
                in_grace: s.in_grace,
            };
            let ghost cur = self.slots@;
            self.slots.set(i, slot);
            proof {
                assert forall|a: int| 0 <= a < self.slots@.len() implies self.slots@[a].id == cur[a].id
                    && self.slots@[a].is_host == cur[a].is_host && self.slots@[a].is_ai == cur[a].is_ai by {}
            }
            i = i + 1;
        }
    }

    fn all_slots_ready(&self) -> (r: bool)
        ensures
            r == all_ready(self.slots@),
    {
        let mut i: usize = 0;
        while i < self.slots.len()
            invariant
                i <= self.slots@.len(),
                forall|j: int| 0 <= j < i ==> self.slots@[j].ready,
            decreases self.slots@.len() - i,
        {
            if !self.slots[i].ready {
                return false;
            }
            i = i + 1;
        }
        true
    }

    /// The peer ids of all slots in seat order, or the first slot without one.
    fn collect_peers(&self) -> (r: Result<Vec<Vec<u8>>, usize>)
        ensures
            match r {
                Ok(ids) => {
                    &&& forall|i: int| 0 <= i < self.slots@.len() ==> self.peers().contains_key(#[trigger] self.slots@[i].id)
                    &&& views(ids@) == Seq::new(self.slots@.len(), |i: int| self.peers()[self.slots@[i].id])
                },
                Err(i) => first_without_peer(self.slots@, self.peers(), i as int),
            },
    {
        let mut ids: Vec<Vec<u8>> = Vec::new();
        let mut i: usize = 0;
        while i < self.slots.len()
            invariant
                i <= self.slots@.len(),
                forall|j: int| 0 <= j < i ==> self.peers().contains_key(#[trigger] self.slots@[j].id),
                views(ids@) == Seq::new(i as nat, |j: int| self.peers()[self.slots@[j].id]),
            decreases self.slots@.len() - i,
        {
            let id = self.slots[i].id;
            match self.player_peers.get(&id) {
                Some(p) => {
                    let ghost before = views(ids@);
                    let c = p.clone();
                    proof {
                        assert(c@ =~= p@);
                        assert(self.player_peers@[id] == *p);
                        assert(self.peers()[id] == p@);
                    }
                    let ghost ids0 = ids@;
                    ids.push(c);
                    proof {
                        assert(ids@ == ids0.push(c));
                        assert(views(ids@) =~= views(ids0).push(c@));
                        assert(views(ids@) =~= Seq::new((i + 1) as nat, |j: int| self.peers()[self.slots@[j].id]));
                    }
                },
                None => {
                    return Err(i);
                },
            }
            i = i + 1;
        }
        Ok(ids)
    }

    /// The host starts the game from the lobby, with everyone ready.
    ///
    /// A zero-trust room with four humans starts a zero-trust hand: seats are
    /// assigned; then every player needs a known peer id (otherwise the start
    /// waits, seats kept) and all get the peer ids in seat order with the
    /// session label. A zero-trust room with fewer humans falls back to a
    /// standard start. A standard start assigns seats and fills the free seats
    /// with AI players, whose reconnect tokens come from `ai_tokens` (by
    /// seat); the room task then starts the engine.
    pub fn handle_start_game(&mut self, player_id: u32, ai_tokens: [u128; 4]) -> (r: StartOutcome)
        requires
            old(self).wf(),
            old(self).next_player_id <= u32::MAX - 4,
        ensures
            final(self).wf(),
            final(self).room_id == old(self).room_id,
            final(self).player_peers == old(self).player_peers,
            ({
                let o = *old(self);
                let f = *final(self);
                let n = o.slots@.len();
                let host_asks = exists|i: int| 0 <= i < n && o.slots@[i].id == player_id && o.slots@[i].is_host;
                if o.state != RoomLifecycle::Lobby || !host_asks {
                    r is Ignored && f.slots == o.slots && f.state == o.state && f.mode == o.mode
                        && f.next_player_id == o.next_player_id
                } else if !all_ready(o.slots@) {
                    r is NotAllReady && f.slots == o.slots && f.state == o.state && f.mode == o.mode
                        && f.next_player_id == o.next_player_id
                } else if n < 1 || n > MAX_PLAYERS {
                    r is BadPlayerCount && f.slots == o.slots && f.state == o.state && f.mode == o.mode
                        && f.next_player_id == o.next_player_id
                } else if o.mode == RoomMode::ZeroTrust && n == MAX_PLAYERS {
                    &&& f.slots@.len() == n
                    &&& forall|i: int| 0 <= i < n ==> #[trigger] f.slots@[i] == (Slot { seat: Some(seat_at(i)), ..o.slots@[i] })
                    &&& f.mode == o.mode
                    &&& f.next_player_id == o.next_player_id
                    &&& (forall|i: int| first_without_peer(o.slots@, o.peers(), i) ==> r == (StartOutcome::ZeroTrustMissingPeer { index: i as usize })
                        && f.state == o.state)
                    &&& ((forall|i: int| 0 <= i < n ==> o.peers().contains_key(#[trigger] o.slots@[i].id)) ==> {
                        &&& f.state == RoomLifecycle::InGame
                        &&& r matches StartOutcome::ZeroTrust { all_peer_ids, session_label, deck_size, cnc_k_rounds }
                            && views(all_peer_ids@) == Seq::new(n, |i: int| o.peers()[o.slots@[i].id])
                            && session_label@ == sha256_of(session_preimage(
                                vstd::utf8::encode_utf8(o.room_id@), views(all_peer_ids@)))
                            && deck_size == 136 && cnc_k_rounds == 80
                    })
                } else {
                    &&& r == (StartOutcome::Standard { downgraded: o.mode == RoomMode::ZeroTrust })
                    &&& f.state == RoomLifecycle::InGame
                    &&& f.mode == RoomMode::Standard
                    &&& f.next_player_id == o.next_player_id + (MAX_PLAYERS - n)
                    &&& f.slots@.len() == MAX_PLAYERS
                    &&& forall|i: int| 0 <= i < n ==> #[trigger] f.slots@[i] == (Slot { seat: Some(seat_at(i)), ..o.slots@[i] })
                    &&& forall|i: int| n <= i < MAX_PLAYERS ==> {
                        let s = #[trigger] f.slots@[i];
                        &&& s.id == o.next_player_id + (i - n)
                        &&& s.nickname@ == ai_nickname(i + 1)
                        &&& s.ready && s.is_ai && !s.is_host && s.connected && !s.online && !s.in_grace
                        &&& s.seat == Some(seat_at(i))
                        &&& s.reconnect_token == ai_tokens[i]
                    }
                }
            }),
    {
        if self.state != RoomLifecycle::Lobby {
            return StartOutcome::Ignored;
        }
        if !self.is_host(player_id) {
            return StartOutcome::Ignored;
        }
        if !self.all_slots_ready() {
            return StartOutcome::NotAllReady;
        }
        let n = self.slots.len();
        if n < 1 || n > MAX_PLAYERS {
            return StartOutcome::BadPlayerCount;
        }
        let mut downgraded = false;
        if self.mode == RoomMode::ZeroTrust {
            if n == MAX_PLAYERS {
                self.assign_seats();
                proof {
                    assert forall|a: int| 0 <= a < self.slots@.len() implies self.slots@[a].id == old(self).slots@[a].id by {
                        assert(self.slots@[a] == (Slot { seat: Some(seat_at(a)), ..old(self).slots@[a] }));
                    }
                }
                match self.collect_peers() {
                    Err(i) => {
                        proof {
                            assert(first_without_peer(old(self).slots@, old(self).peers(), i as int));
                            assert forall|j: int| first_without_peer(old(self).slots@, old(self).peers(), j) implies j == i by {
                                if j < i {
                                } else if j > i {
                                }
                            }
                        }
                        return StartOutcome::ZeroTrustMissingPeer { index: i };
                    },
                    Ok(all_peer_ids) => {
                        let session_label = compute_session_label(self.room_id.as_str(), all_peer_ids.as_slice());
                        self.state = RoomLifecycle::InGame;
                        return StartOutcome::ZeroTrust { all_peer_ids, session_label, deck_size: 136, cnc_k_rounds: 80 };
                    },
                }
            }
            self.mode = RoomMode::Standard;
            downgraded = true;
        }
        self.assign_seats();
        let ghost seated = self.slots@;
        let ghost next0 = self.next_player_id;
        let ghost rid = self.room_id;
        let ghost pp = self.player_peers;
        while self.slots.len() < MAX_PLAYERS
            invariant
                self.wf(),
                self.room_id == rid,
                self.player_peers == pp,
                n <= self.slots@.len() <= MAX_PLAYERS,
                1 <= n,
                self.next_player_id == next0 + (self.slots@.len() - n),
                next0 <= u32::MAX - 4,
                self.mode == RoomMode::Standard,
                self.state == RoomLifecycle::Lobby,
                forall|i: int| 0 <= i < n ==> #[trigger] self.slots@[i] == seated[i],
                forall|i: int| n <= i < self.slots@.len() ==> {
                    let s = #[trigger] self.slots@[i];
                    &&& s.id == next0 + (i - n)
                    &&& s.nickname@ == ai_nickname(i + 1)
                    &&& s.ready && s.is_ai && !s.is_host && s.connected && !s.online && !s.in_grace
                    &&& s.seat == Some(seat_at(i))
                    &&& s.reconnect_token == ai_tokens[i]
                },
            decreases MAX_PLAYERS - self.slots@.len(),
        {
            let i = self.slots.len();
            let id = self.alloc_id();
            let mut nick = String::from_str("AI ");
            nick.append(digit_str((i + 1) as u8));
            self.slots.push(Slot {
                id,
                nickname: nick,
                ready: true,
                seat: Some(Seat::from_index(i)),
                is_ai: true,
                is_host: false,
                connected: true,
                online: false,
                reconnect_token: ai_tokens[i],
                in_grace: false,
            });
        }
        self.state = RoomLifecycle::InGame;
        StartOutcome::Standard { downgraded }
    }
}

/// The id of the first slot marked host, or 0 when none is.
pub open spec fn host_id_of(s: Seq<Slot>) -> u32
    decreases s.len(),
{
    if s.len() == 0 {
        0
    } else if s[0].is_host {
        s[0].id
    } else {
        host_id_of(s.drop_first())
    }
}

/// The lifecycle as the lobby record spells it.
pub open spec fn lifecycle_text(l: RoomLifecycle) -> Seq<char> {
    match l {
        RoomLifecycle::Lobby => "lobby"@,
        RoomLifecycle::InGame => "in_game"@,
        RoomLifecycle::GameEnd => "game_end"@,
    }
}

/// The number of human (non-AI) players.
pub open spec fn human_count(s: Seq<Slot>) -> nat
    decreases s.len(),
{
    if s.len() == 0 {
        0
    } else {
        human_count(s.drop_last()) + if s.last().is_ai {
            0nat
        } else {
            1nat
        }
    }
}

proof fn lemma_human_count_le(s: Seq<Slot>)
    ensures
        human_count(s) <= s.len(),
    decreases s.len(),
{
    if s.len() > 0 {
        lemma_human_count_le(s.drop_last());
    }
}

impl Room {
    /// The host's player id as the room view shows it: the first slot
    /// marked host, or 0 when no slot is.
    pub fn host_id(&self) -> (r: u32)
        ensures
            r == host_id_of(self.slots@),
    {
        let mut i: usize = 0;
        proof {
            assert(self.slots@.skip(0) =~= self.slots@);
        }
        while i < self.slots.len()
            invariant
                i <= self.slots@.len(),
                host_id_of(self.slots@) == host_id_of(self.slots@.skip(i as int)),
            decreases self.slots@.len() - i,
        {
            proof {
                assert(self.slots@.skip(i as int).drop_first() =~= self.slots@.skip(i + 1));
            }
            if self.slots[i].is_host {
                return self.slots[i].id;
            }
            i = i + 1;
        }
        0
    }

    /// What the host's lobby record says of the room now: the number of human
    /// players and the lifecycle.
    pub fn lobby_dyn_state(&self) -> (r: LobbyDynState)
        requires
            self.wf(),
        ensures
            r.players == human_count(self.slots@),
            r.lifecycle@ == lifecycle_text(self.state),
    {
        let mut n: u8 = 0;
        let mut i: usize = 0;
        while i < self.slots.len()
            invariant
                i <= self.slots@.len(),
                self.slots@.len() <= MAX_PLAYERS,
                n == human_count(self.slots@.take(i as int)),
            decreases self.slots@.len() - i,
        {
            proof {
                assert(self.slots@.take(i + 1).drop_last() =~= self.slots@.take(i as int));
                lemma_human_count_le(self.slots@.take(i as int));
            }
            if !self.slots[i].is_ai {
                n = n + 1;
            }
            i = i + 1;
        }
        proof {
            assert(self.slots@.take(self.slots@.len() as int) =~= self.slots@);
        }
        let lifecycle = match self.state {
            RoomLifecycle::Lobby => String::from_str("lobby"),
            RoomLifecycle::InGame => String::from_str("in_game"),
            RoomLifecycle::GameEnd => String::from_str("game_end"),
        };
        LobbyDynState { players: n, lifecycle }
    }
}

} // verus!
