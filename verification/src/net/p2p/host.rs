//! The host's side of the peer-to-peer lobby: the lobby record it publishes
//! on the lobby topic and, when it is publicly reachable, its relay offer on
//! the relays topic; and the bookkeeping of its swarm task (joined peers,
//! listen and public addresses, bootstrap relays awaiting their identify
//! info). The task serialises, publishes, listens and forwards; what it does
//! on each event is decided here.

use vstd::prelude::*;
use libp2p::multiaddr::Protocol;
use libp2p::{Multiaddr, PeerId};
use vstd::string::{StrSliceExecFns, StringExecFns};
use crate::mental_poker::point::{copy_bytes, views};
use crate::net::text::range_eq;
use super::behaviour::{LobbyAnnouncement, RelayAnnouncement};
use super::browser::{
    add_addr, append_p2p, full_addr, has_p2p, multiaddr_text, multiaddr_to_string, multiaddr_with_p2p,
    peer_id_of_str, primary_index, primary_of, push_new, string_views,
};
use super::keyed::{bfind, bmap, bremove, bset, unique_bkeys};
use super::mode::RoomMode;

verus! {

/// The text form of a peer id (base58).
pub uninterp spec fn peer_id_text(peer: Seq<u8>) -> Seq<char>;

/// The byte form of some peer id: what parsing some string gives.
pub open spec fn is_peer_id(peer: Seq<u8>) -> bool {
    exists|s: Seq<char>| peer_id_of_str(s) == Some(peer)
}

/// `PeerId`'s `Display`: the base58 text of a peer id given in its byte form
/// (empty for bytes that are no peer id, which hosts never hold). For the
/// byte form of a peer id, parsing the text gives the bytes back: `Display`
/// writes base58 of `to_bytes`, and `from_str` decodes base58 and reads the
/// multihash, whose byte form is canonical.
#[verifier::external_body]
pub(crate) fn peer_id_to_string(peer: &[u8]) -> (r: String)
    ensures
        r@ == peer_id_text(peer@),
        is_peer_id(peer@) ==> peer_id_of_str(r@) == Some(peer@),
{
    match PeerId::from_bytes(peer) {
        Ok(p) => p.to_string(),
        Err(_) => String::new(),
    }
}

/// The peer id an address names in its `/p2p/<peer>` component.
pub uninterp spec fn multiaddr_peer(addr: Seq<u8>) -> Option<Seq<u8>>;

/// The address with `/p2p-circuit` appended.
pub uninterp spec fn multiaddr_with_circuit(addr: Seq<u8>) -> Seq<u8>;

/// `Multiaddr::iter` looking for the first `Protocol::P2p` component: its
/// peer id in byte form, or `None` (also for bytes that are no multiaddress).
#[verifier::external_body]
pub(crate) fn peer_of_multiaddr(addr: &[u8]) -> (r: Option<Vec<u8>>)
    ensures
        match r {
            Some(p) => multiaddr_peer(addr@) == Some(p@),
            None => multiaddr_peer(addr@) is None,
        },
{
    match Multiaddr::try_from(addr.to_vec()) {
        Ok(m) => m.iter().find_map(|p| match p {
            Protocol::P2p(id) => Some(id.to_bytes()),
            _ => None,
        }),
        Err(_) => None,
    }
}

/// `Multiaddr::with(Protocol::P2pCircuit)`: the address with `/p2p-circuit`
/// appended (the bytes unchanged when they are no multiaddress).
#[verifier::external_body]
fn append_circuit(addr: &[u8]) -> (r: Vec<u8>)
    ensures
        r@ == multiaddr_with_circuit(addr@),
{
    match Multiaddr::try_from(addr.to_vec()) {
        Ok(m) => m.with(Protocol::P2pCircuit).to_vec(),
        Err(_) => addr.to_vec(),
    }
}

/// The protocol a relay speaks to grant reservations.
pub const RELAY_HOP_PROTOCOL: &'static str = "/libp2p/circuit/relay/0.2.0/hop";

/// What a host's lobby record says that does not change while it runs.
#[derive(Debug, Clone)]
pub struct LobbyMeta {
    pub host_nick: String,
    pub room_id: String,
    /// Decides whether the game starts in standard or zero-trust mode.
    pub mode: RoomMode,
}

/// What a host's lobby record says that follows the room: the number of
/// human players (AI seats are not counted) and the lifecycle
/// (`lobby`, `in_game`, `game_end`).
#[derive(Debug, Clone)]
pub struct LobbyDynState {
    pub players: u8,
    pub lifecycle: String,
}

impl Default for LobbyDynState {
    /// No players yet, in the lobby.
    fn default() -> (r: Self)
        ensures
            r.players == 0,
            r.lifecycle@ == "lobby"@,
    {
        LobbyDynState { players: 0, lifecycle: String::from_str("lobby") }
    }
}

/// The addresses in their text form, in order.
pub open spec fn addr_texts(addrs: Seq<Seq<u8>>) -> Seq<Seq<char>> {
    addrs.map_values(|a: Seq<u8>| multiaddr_text(a))
}

/// The text forms of the addresses.
fn addr_strings(addrs: &Vec<Vec<u8>>) -> (r: Vec<String>)
    ensures
        string_views(r@) == addr_texts(views(addrs@)),
{
    let mut out: Vec<String> = Vec::new();
    let mut i: usize = 0;
    while i < addrs.len()
        invariant
            i <= addrs@.len(),
            string_views(out@) == addr_texts(views(addrs@)).take(i as int),
        decreases addrs@.len() - i,
    {
        let s = multiaddr_to_string(addrs[i].as_slice());
        let ghost before = out@;
        out.push(s);
        proof {
            assert(string_views(out@) =~= string_views(before).push(s@));
            assert(addr_texts(views(addrs@)).take(i + 1) =~= addr_texts(views(addrs@)).take(i as int).push(
                multiaddr_text(addrs@[i as int]@),
            ));
        }
        i = i + 1;
    }
    proof {
        assert(addr_texts(views(addrs@)).take(addrs@.len() as int) =~= addr_texts(views(addrs@)));
    }
    out
}

/// The lobby record to publish at `now_unix_ms`, or `None` while the host has
/// no address to be dialled on (there is nothing to announce then).
pub fn lobby_announcement(
    meta: &LobbyMeta,
    dyn_state: &LobbyDynState,
    local_peer_id: &[u8],
    listen_addrs: &Vec<Vec<u8>>,
    now_unix_ms: i64,
) -> (r: Option<LobbyAnnouncement>)
    ensures
        r is None <==> listen_addrs@.len() == 0,
        r matches Some(a) ==> {
            &&& a.schema_version == 1
            &&& a.host_peer_id@ == peer_id_text(local_peer_id@)
            &&& is_peer_id(local_peer_id@) ==> peer_id_of_str(a.host_peer_id@) == Some(local_peer_id@)
            &&& a.host_nick@ == meta.host_nick@
            &&& a.players == dyn_state.players
            &&& a.lifecycle@ == dyn_state.lifecycle@
            &&& a.room_id@ == meta.room_id@
            &&& string_views(a.multiaddrs@) == addr_texts(views(listen_addrs@))
            &&& a.timestamp_unix_ms == now_unix_ms
            &&& a.mode == meta.mode
        },
{
    if listen_addrs.len() == 0 {
        return None;
    }
    Some(LobbyAnnouncement {
        schema_version: 1,
        host_peer_id: peer_id_to_string(local_peer_id),
        host_nick: meta.host_nick.clone(),
        players: dyn_state.players,
        lifecycle: dyn_state.lifecycle.clone(),
        room_id: meta.room_id.clone(),
        multiaddrs: addr_strings(listen_addrs),
        timestamp_unix_ms: now_unix_ms,
        mode: meta.mode,
    })
}

/// The relay offer to publish at `now_unix_ms`, or `None` while the host
/// knows no public address.
pub fn relay_announcement(local_peer_id: &[u8], public_addrs: &Vec<Vec<u8>>, now_unix_ms: i64) -> (r: Option<
    RelayAnnouncement,
>)
    ensures
        r is None <==> public_addrs@.len() == 0,
        r matches Some(a) ==> {
            &&& a.schema_version == 1
            &&& a.peer_id@ == peer_id_text(local_peer_id@)
            &&& is_peer_id(local_peer_id@) ==> peer_id_of_str(a.peer_id@) == Some(local_peer_id@)
            &&& string_views(a.multiaddrs@) == addr_texts(views(public_addrs@))
            &&& a.timestamp_unix_ms == now_unix_ms
        },
{
    if public_addrs.len() == 0 {
        return None;
    }
    Some(RelayAnnouncement {
        schema_version: 1,
        peer_id: peer_id_to_string(local_peer_id),
        multiaddrs: addr_strings(public_addrs),
        timestamp_unix_ms: now_unix_ms,
    })
}

// ---------------------------------------------------------------------------
// The host's swarm bookkeeping
// ---------------------------------------------------------------------------

/// NAT reachability as AutoNAT reports it.
#[derive(Debug, Clone)]
pub enum NatReachability {
    /// Publicly reachable at the address.
    Public(Vec<u8>),
    /// Behind NAT: joiners come in through a relay.
    Private,
    /// Not known yet.
    Unknown,
}

/// What the host's swarm task keeps between events: the joined peers, the
/// bootstrap relays whose circuit listen waits for their identify info, and
/// the addresses to announce. The task performs the effects its methods
/// decide (listening, forwarding to the room, notifying the UI).
#[derive(Debug)]
pub struct HostSwarmState {
    pub local_peer_id: Vec<u8>,
    /// Joined peers: peer id to player id.
    pub peers: Vec<(Vec<u8>, u32)>,
    /// Bootstrap relays not yet identified: peer id to relay address.
    pub pending_circuit_listens: Vec<(Vec<u8>, Vec<u8>)>,
    /// Every address the host listens on, ending in `/p2p/<local>`, each once.
    pub listen_addrs: Vec<Vec<u8>>,
    /// AutoNAT-confirmed public addresses, ending in `/p2p/<local>`, each once.
    pub public_addrs: Vec<Vec<u8>>,
}

pub struct HostSwarmView {
    pub local_peer_id: Seq<u8>,
    pub peers: Map<Seq<u8>, u32>,
    pub pending_circuit_listens: Map<Seq<u8>, Seq<u8>>,
    pub listen_addrs: Seq<Seq<u8>>,
    pub public_addrs: Seq<Seq<u8>>,
}

impl View for HostSwarmState {
    type V = HostSwarmView;

    open spec fn view(&self) -> HostSwarmView {
        HostSwarmView {
            local_peer_id: self.local_peer_id@,
            peers: bmap(self.peers@),
            pending_circuit_listens: bmap(self.pending_circuit_listens@),
            listen_addrs: views(self.listen_addrs@),
            public_addrs: views(self.public_addrs@),
        }
    }
}

/// The relays to listen through once identified, by peer id: each bootstrap
/// address that names its peer, a later one replacing an earlier one.
pub open spec fn pending_of(relays: Seq<Seq<u8>>) -> Map<Seq<u8>, Seq<u8>>
    decreases relays.len(),
{
    if relays.len() == 0 {
        Map::empty()
    } else {
        let m = pending_of(relays.drop_last());
        match multiaddr_peer(relays.last()) {
            Some(p) => m.insert(p, relays.last()),
            None => m,
        }
    }
}

/// `p` occurs in `s` as a run of consecutive chars.
pub open spec fn str_contains(s: Seq<char>, p: Seq<char>) -> bool {
    exists|i: int| 0 <= i && i + p.len() <= s.len() && #[trigger] s.subrange(i, i + p.len()) == p
}

/// Some protocol in the list names the relay hop protocol.
pub open spec fn speaks_hop(protocols: Seq<Seq<char>>) -> bool {
    exists|i: int| 0 <= i < protocols.len() && str_contains(#[trigger] protocols[i], RELAY_HOP_PROTOCOL@)
}

/// Whether `p` occurs in `s`.
fn contains_str(s: &str, p: &str) -> (r: bool)
    ensures
        r == str_contains(s@, p@),
{
    let n = s.unicode_len();
    let m = p.unicode_len();
    if m > n {
        return false;
    }
    if m == 0 {
        proof {
            assert(s@.subrange(0, 0 + p@.len() as int) =~= p@);
        }
        return true;
    }
    let mut i: usize = 0;
    while i <= n - m
        invariant
            n == s@.len(),
            m == p@.len(),
            0 < m <= n,
            i <= n - m + 1,
            forall|j: int| 0 <= j < i ==> #[trigger] s@.subrange(j, j + m) != p@,
        decreases n - m + 1 - i,
    {
        if range_eq(s, i, i + m, p) {
            return true;
        }
        i = i + 1;
    }
    proof {
        assert forall|j: int| 0 <= j && j + p@.len() <= s@.len() implies #[trigger] s@.subrange(j, j + p@.len()) != p@ by {
            assert(j < i);
        }
    }
    false
}

/// Whether some protocol names the relay hop protocol.
fn any_speaks_hop(protocols: &Vec<String>) -> (r: bool)
    ensures
        r == speaks_hop(string_views(protocols@)),
{
    let mut i: usize = 0;
    while i < protocols.len()
        invariant
            i <= protocols@.len(),
            forall|j: int| 0 <= j < i ==> !str_contains(#[trigger] string_views(protocols@)[j], RELAY_HOP_PROTOCOL@),
        decreases protocols@.len() - i,
    {
        if contains_str(protocols[i].as_str(), RELAY_HOP_PROTOCOL) {
            proof {
                assert(string_views(protocols@)[i as int] == protocols@[i as int]@);
            }
            return true;
        }
        proof {
            assert(string_views(protocols@)[i as int] == protocols@[i as int]@);
        }
        i = i + 1;
    }
    false
}

/// An address ending in `/p2p/<local>`: itself if it names a peer already.
fn with_local_peer(addr: Vec<u8>, local: &[u8]) -> (r: Vec<u8>)
    ensures
        r@ == full_addr(addr@, local@),
{
    if has_p2p(addr.as_slice()) {
        addr
    } else {
        append_p2p(addr.as_slice(), local)
    }
}

/// The address a joiner dials: the first QUIC listen address, else the
/// first one, with `/p2p/<local>` appended.
pub fn dial_addr(listen_addrs: &Vec<Vec<u8>>, local_peer_id: &[u8]) -> (r: Option<Vec<u8>>)
    ensures
        match r {
            Some(a) => primary_of(views(listen_addrs@)) matches Some(p) && a@ == multiaddr_with_p2p(p, local_peer_id@),
            None => primary_of(views(listen_addrs@)) is None,
        },
{
    match primary_index(listen_addrs) {
        Some(i) => Some(append_p2p(listen_addrs[i].as_slice(), local_peer_id)),
        None => None,
    }
}

impl HostSwarmState {
    pub open spec fn wf(&self) -> bool {
        &&& unique_bkeys(self.peers@)
        &&& unique_bkeys(self.pending_circuit_listens@)
    }

    /// A host with no peers and no addresses yet, waiting for the identify
    /// info of each bootstrap relay that names its peer.
    pub fn new(local_peer_id: Vec<u8>, bootstrap_relays: &Vec<Vec<u8>>) -> (r: Self)
        ensures
            r.wf(),
            r@.local_peer_id == local_peer_id@,
            r@.peers == Map::<Seq<u8>, u32>::empty(),
            r@.pending_circuit_listens == pending_of(views(bootstrap_relays@)),
            r@.listen_addrs == Seq::<Seq<u8>>::empty(),
            r@.public_addrs == Seq::<Seq<u8>>::empty(),
    {
        let mut pending: Vec<(Vec<u8>, Vec<u8>)> = Vec::new();
        let mut i: usize = 0;
        let ghost relays = views(bootstrap_relays@);
        proof {
            assert(relays.take(0) =~= Seq::<Seq<u8>>::empty());
            assert(bmap(pending@) =~= Map::<Seq<u8>, Seq<u8>>::empty());
        }
        while i < bootstrap_relays.len()
            invariant
                relays == views(bootstrap_relays@),
                i <= bootstrap_relays@.len(),
                unique_bkeys(pending@),
                bmap(pending@) == pending_of(relays.take(i as int)),
            decreases bootstrap_relays@.len() - i,
        {
            proof {
                assert(relays.take(i + 1).drop_last() =~= relays.take(i as int));
                assert(relays.take(i + 1).last() == bootstrap_relays@[i as int]@);
            }
            match peer_of_multiaddr(bootstrap_relays[i].as_slice()) {
                Some(p) => {
                    bset(&mut pending, p, copy_bytes(&bootstrap_relays[i]));
                },
                None => {},
            }
            i = i + 1;
        }
        proof {
            assert(relays.take(bootstrap_relays@.len() as int) =~= relays);
        }
        let r = HostSwarmState {
            local_peer_id,
            peers: Vec::new(),
            pending_circuit_listens: pending,
            listen_addrs: Vec::new(),
            public_addrs: Vec::new(),
        };
        proof {
            assert(r@.peers =~= Map::<Seq<u8>, u32>::empty());
            assert(r@.listen_addrs =~= Seq::<Seq<u8>>::empty());
            assert(r@.public_addrs =~= Seq::<Seq<u8>>::empty());
        }
        r
    }

    /// A new listen address: kept, ending in `/p2p/<local>`, unless known;
    /// returns that full address (what the UI is told).
    pub fn on_new_listen_addr(&mut self, addr: Vec<u8>) -> (full: Vec<u8>)
        requires
            old(self).wf(),
        ensures
            final(self).wf(),
            full@ == full_addr(addr@, old(self)@.local_peer_id),
            final(self)@ == (HostSwarmView {
                listen_addrs: add_addr(old(self)@.listen_addrs, full@),
                ..old(self)@
            }),
    {
        let full = with_local_peer(addr, self.local_peer_id.as_slice());
        push_new(&mut self.listen_addrs, copy_bytes(&full));
        full
    }

    /// AutoNAT's verdict changed: a public address joins the relay offer
    /// (ending in `/p2p/<local>`, unless known); private or unknown withdraws
    /// the offer.
    pub fn on_nat_status(&mut self, status: &NatReachability)
        requires
            old(self).wf(),
        ensures
            final(self).wf(),
            final(self)@ == (HostSwarmView {
                public_addrs: match status {
                    NatReachability::Public(a) => add_addr(
                        old(self)@.public_addrs,
                        full_addr(a@, old(self)@.local_peer_id),
                    ),
                    _ => Seq::<Seq<u8>>::empty(),
                },
                ..old(self)@
            }),
    {
        match status {
            NatReachability::Public(a) => {
                let full = with_local_peer(copy_bytes(a), self.local_peer_id.as_slice());
                push_new(&mut self.public_addrs, full);
            },
            _ => {
                self.public_addrs = Vec::new();
                proof {
                    assert(views(self.public_addrs@) =~= Seq::<Seq<u8>>::empty());
                }
            },
        }
    }

    /// The player a joined peer plays as.
    pub fn player_of(&self, peer: &[u8]) -> (r: Option<u32>)
        requires
            self.wf(),
        ensures
            match r {
                Some(id) => self@.peers.contains_key(peer@) && self@.peers[peer@] == id,
                None => !self@.peers.contains_key(peer@),
            },
    {
        match bfind(&self.peers, peer) {
            Some(i) => {
                proof {
                    super::keyed::lemma_bkey_pos(self.peers@, i as int);
                }
                Some(self.peers[i].1)
            },
            None => None,
        }
    }

    /// The room accepted a peer's join as `player_id`.
    pub fn on_join_accepted(&mut self, peer: Vec<u8>, player_id: u32)
        requires
            old(self).wf(),
        ensures
            final(self).wf(),
            final(self)@ == (HostSwarmView { peers: old(self)@.peers.insert(peer@, player_id), ..old(self)@ }),
    {
        bset(&mut self.peers, peer, player_id);
    }

    /// A connection closed: a joined peer is forgotten, and the player it
    /// played as is returned (the room is told of the disconnect).
    pub fn on_connection_closed(&mut self, peer: &[u8]) -> (r: Option<u32>)
        requires
            old(self).wf(),
        ensures
            final(self).wf(),
            r == (if old(self)@.peers.contains_key(peer@) {
                Some(old(self)@.peers[peer@])
            } else {
                None
            }),
            final(self)@ == (HostSwarmView { peers: old(self)@.peers.remove(peer@), ..old(self)@ }),
    {
        let r = self.player_of(peer);
        bremove(&mut self.peers, peer);
        r
    }

    /// A peer's identify info arrived. A bootstrap relay waiting for it is no
    /// longer waiting; if it speaks the hop protocol, the circuit address to
    /// listen on through it is returned.
    pub fn on_identify(&mut self, peer: &[u8], protocols: &Vec<String>) -> (r: Option<Vec<u8>>)
        requires
            old(self).wf(),
        ensures
            final(self).wf(),
            final(self)@ == (HostSwarmView {
                pending_circuit_listens: old(self)@.pending_circuit_listens.remove(peer@),
                ..old(self)@
            }),
            match r {
                Some(c) => old(self)@.pending_circuit_listens.contains_key(peer@)
                    && speaks_hop(string_views(protocols@))
                    && c@ == multiaddr_with_circuit(old(self)@.pending_circuit_listens[peer@]),
                None => !old(self)@.pending_circuit_listens.contains_key(peer@)
                    || !speaks_hop(string_views(protocols@)),
            },
    {
        let relay = match bfind(&self.pending_circuit_listens, peer) {
            Some(i) => {
                proof {
                    super::keyed::lemma_bkey_pos(self.pending_circuit_listens@, i as int);
                }
                copy_bytes(&self.pending_circuit_listens[i].1)
            },
            None => {
                proof {
                    assert(bmap(self.pending_circuit_listens@) =~= bmap(self.pending_circuit_listens@).remove(peer@));
                }
                return None;
            },
        };
        bremove(&mut self.pending_circuit_listens, peer);
        if any_speaks_hop(protocols) {
            Some(append_circuit(relay.as_slice()))
        } else {
            None
        }
    }

    /// The records to publish at `now_unix_ms`: the lobby record while the
    /// host has an address, the relay offer while it has a public one.
    pub fn announcements(&self, meta: &LobbyMeta, dyn_state: &LobbyDynState, now_unix_ms: i64) -> (r: (
        Option<LobbyAnnouncement>,
        Option<RelayAnnouncement>,
    ))
        ensures
            r.0 is None <==> self.listen_addrs@.len() == 0,
            r.0 matches Some(a) ==> {
                &&& a.schema_version == 1
                &&& a.host_peer_id@ == peer_id_text(self.local_peer_id@)
                &&& is_peer_id(self.local_peer_id@) ==> peer_id_of_str(a.host_peer_id@) == Some(self.local_peer_id@)
                &&& a.host_nick@ == meta.host_nick@
                &&& a.players == dyn_state.players
                &&& a.lifecycle@ == dyn_state.lifecycle@
                &&& a.room_id@ == meta.room_id@
                &&& string_views(a.multiaddrs@) == addr_texts(self@.listen_addrs)
                &&& a.timestamp_unix_ms == now_unix_ms
                &&& a.mode == meta.mode
            },
            r.1 is None <==> self.public_addrs@.len() == 0,
            r.1 matches Some(a) ==> {
                &&& a.schema_version == 1
                &&& a.peer_id@ == peer_id_text(self.local_peer_id@)
                &&& is_peer_id(self.local_peer_id@) ==> peer_id_of_str(a.peer_id@) == Some(self.local_peer_id@)
                &&& string_views(a.multiaddrs@) == addr_texts(self@.public_addrs)
                &&& a.timestamp_unix_ms == now_unix_ms
            },
    {
        (
            lobby_announcement(meta, dyn_state, self.local_peer_id.as_slice(), &self.listen_addrs, now_unix_ms),
            relay_announcement(self.local_peer_id.as_slice(), &self.public_addrs, now_unix_ms),
        )
    }
}

} // verus!
