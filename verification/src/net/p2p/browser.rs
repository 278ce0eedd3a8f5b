//! The lobby browser's state: rooms found on the LAN and through lobby
//! announcements, and the pool of relays offered by reachable hosts.
//!
//! Peer ids and addresses are held in their byte forms (`PeerId::to_bytes`,
//! `Multiaddr::to_vec`); parsing them from strings and inspecting addresses is
//! done by `libp2p`.

use vstd::prelude::*;
use libp2p::multiaddr::Protocol;
use libp2p::{Multiaddr, PeerId};
use vstd::string::{StrSliceExecFns, StringExecFns};
use crate::mental_poker::point::{bytes_eq, copy_bytes, copy_byte_list, views};
use super::behaviour::{LobbyAnnouncement, RelayAnnouncement};
use super::discovery::{MetadataView, RoomMetadata, metadata_of, parse_metadata};
use super::keyed::{bfind, bmap, bremove, bset, has_bkey, unique_bkeys};
use super::mode::RoomMode;

verus! {

// ---------------------------------------------------------------------------
// What libp2p computes
// ---------------------------------------------------------------------------

/// The byte form of the peer id a string spells, if it spells one.
pub uninterp spec fn peer_id_of_str(s: Seq<char>) -> Option<Seq<u8>>;

/// The byte form of the multiaddress a string spells, if it spells one.
pub uninterp spec fn multiaddr_of_str(s: Seq<char>) -> Option<Seq<u8>>;

/// The address holds a `/p2p/<peer>` component.
pub uninterp spec fn multiaddr_has_p2p(addr: Seq<u8>) -> bool;

/// The address holds a `/quic-v1` component.
pub uninterp spec fn multiaddr_is_quic(addr: Seq<u8>) -> bool;

/// The address with `/p2p/<peer>` appended.
pub uninterp spec fn multiaddr_with_p2p(addr: Seq<u8>, peer: Seq<u8>) -> Seq<u8>;

/// The text form of an address (`/ip4/1.2.3.4/udp/4001/quic-v1`).
pub uninterp spec fn multiaddr_text(addr: Seq<u8>) -> Seq<char>;

/// `PeerId::from_str` (base58), then `PeerId::to_bytes`: the peer id's byte
/// form, or `None` when the string is not a peer id. A function of the
/// string alone.
#[verifier::external_body]
fn parse_peer_id(s: &str) -> (r: Option<Vec<u8>>)
    ensures
        match r {
            Some(b) => peer_id_of_str(s@) == Some(b@),
            None => peer_id_of_str(s@) is None,
        },
{
    match s.parse::<PeerId>() {
        Ok(p) => Some(p.to_bytes()),
        Err(_) => None,
    }
}

/// `Multiaddr::from_str`, then `Multiaddr::to_vec`: the address's byte form,
/// or `None` when the string is not a multiaddress. A function of the string
/// alone.
#[verifier::external_body]
fn parse_multiaddr(s: &str) -> (r: Option<Vec<u8>>)
    ensures
        match r {
            Some(b) => multiaddr_of_str(s@) == Some(b@),
            None => multiaddr_of_str(s@) is None,
        },
{
    match s.parse::<Multiaddr>() {
        Ok(m) => Some(m.to_vec()),
        Err(_) => None,
    }
}

/// `Multiaddr::iter` looking for a `Protocol::P2p` component (false for bytes
/// that are no multiaddress, which the browser never holds).
#[verifier::external_body]
pub(crate) fn has_p2p(addr: &[u8]) -> (r: bool)
    ensures
        r == multiaddr_has_p2p(addr@),
{
    match Multiaddr::try_from(addr.to_vec()) {
        Ok(m) => m.iter().any(|p| matches!(p, Protocol::P2p(_))),
        Err(_) => false,
    }
}

/// `Multiaddr::iter` looking for a `Protocol::QuicV1` component (false for
/// bytes that are no multiaddress).
#[verifier::external_body]
fn is_quic(addr: &[u8]) -> (r: bool)
    ensures
        r == multiaddr_is_quic(addr@),
{
    match Multiaddr::try_from(addr.to_vec()) {
        Ok(m) => m.iter().any(|p| matches!(p, Protocol::QuicV1)),
        Err(_) => false,
    }
}

/// `Multiaddr::with(Protocol::P2p(peer))`: the address with `/p2p/<peer>`
/// appended (the address unchanged for bytes that are no multiaddress or no
/// peer id, which the browser never holds).
#[verifier::external_body]
pub(crate) fn append_p2p(addr: &[u8], peer: &[u8]) -> (r: Vec<u8>)
    ensures
        r@ == multiaddr_with_p2p(addr@, peer@),
{
    match (Multiaddr::try_from(addr.to_vec()), PeerId::from_bytes(peer)) {
        (Ok(m), Ok(p)) => m.with(Protocol::P2p(p)).to_vec(),
        _ => addr.to_vec(),
    }
}

/// `Multiaddr`'s `Display`: the address's text form (empty for bytes that are
/// no multiaddress, which the browser never holds).
#[verifier::external_body]
pub(crate) fn multiaddr_to_string(addr: &[u8]) -> (r: String)
    ensures
        r@ == multiaddr_text(addr@),
{
    match Multiaddr::try_from(addr.to_vec()) {
        Ok(m) => m.to_string(),
        Err(_) => String::new(),
    }
}

// ---------------------------------------------------------------------------
// State
// ---------------------------------------------------------------------------

/// Lobby announcements and relay offers older than this are not shown.
pub const LOBBY_ENTRY_TTL_MS: i64 = 30000;
pub const RELAY_ENTRY_TTL_MS: i64 = 30000;

/// The addresses known for one peer, in the order they were learnt.
#[derive(Debug, Clone)]
pub struct AddrList {
    pub addrs: Vec<Vec<u8>>,
}

impl View for AddrList {
    type V = Seq<Seq<u8>>;

    open spec fn view(&self) -> Seq<Seq<u8>> {
        views(self.addrs@)
    }
}

/// A relay offer.
#[derive(Debug, Clone)]
pub struct RelayPoolEntry {
    pub multiaddrs: Vec<Vec<u8>>,
    pub last_seen_unix_ms: i64,
}

pub struct RelayView {
    pub multiaddrs: Seq<Seq<u8>>,
    pub last_seen_unix_ms: i64,
}

impl View for RelayPoolEntry {
    type V = RelayView;

    open spec fn view(&self) -> RelayView {
        RelayView { multiaddrs: views(self.multiaddrs@), last_seen_unix_ms: self.last_seen_unix_ms }
    }
}

/// What the browser learns.
#[derive(Debug, Clone)]
pub enum BrowserEvent {
    /// mDNS found a peer at an address.
    PeerFound { peer: Vec<u8>, addr: Vec<u8> },
    /// mDNS lost a peer.
    PeerLost { peer: Vec<u8> },
    /// A peer's identify info arrived.
    Identified { peer: Vec<u8>, agent_version: String },
    /// A room record from the lobby topic.
    LobbyAnnouncement(LobbyAnnouncement),
    /// A relay offer from the relays topic.
    RelayAnnouncement(RelayAnnouncement),
}

/// Everything the browser knows, by peer.
#[derive(Debug)]
pub struct BrowserState {
    pub addrs: Vec<(Vec<u8>, AddrList)>,
    pub metadata: Vec<(Vec<u8>, RoomMetadata)>,
    pub relays: Vec<(Vec<u8>, RelayPoolEntry)>,
}

pub struct BrowserView {
    pub addrs: Map<Seq<u8>, Seq<Seq<u8>>>,
    pub metadata: Map<Seq<u8>, MetadataView>,
    pub relays: Map<Seq<u8>, RelayView>,
}

impl View for BrowserState {
    type V = BrowserView;

    open spec fn view(&self) -> BrowserView {
        BrowserView { addrs: bmap(self.addrs@), metadata: bmap(self.metadata@), relays: bmap(self.relays@) }
    }
}

/// `a` added to the list unless it is there already.
pub open spec fn add_addr(list: Seq<Seq<u8>>, a: Seq<u8>) -> Seq<Seq<u8>> {
    if list.contains(a) {
        list
    } else {
        list.push(a)
    }
}

/// The new addresses added in order, each unless it is there already.
pub open spec fn add_addrs(list: Seq<Seq<u8>>, new: Seq<Seq<u8>>) -> Seq<Seq<u8>>
    decreases new.len(),
{
    if new.len() == 0 {
        list
    } else {
        add_addr(add_addrs(list, new.drop_last()), new.last())
    }
}

/// The strings that are multiaddresses, parsed, in order.
pub open spec fn parsed_addrs(strs: Seq<Seq<char>>) -> Seq<Seq<u8>>
    decreases strs.len(),
{
    if strs.len() == 0 {
        Seq::empty()
    } else {
        let r = parsed_addrs(strs.drop_last());
        match multiaddr_of_str(strs.last()) {
            Some(b) => r.push(b),
            None => r,
        }
    }
}

pub open spec fn string_views(v: Seq<String>) -> Seq<Seq<char>> {
    v.map_values(|s: String| s@)
}

/// The addresses known for a peer (none if it is unknown).
pub open spec fn addrs_of(v: BrowserView, peer: Seq<u8>) -> Seq<Seq<u8>> {
    if v.addrs.contains_key(peer) {
        v.addrs[peer]
    } else {
        Seq::empty()
    }
}

/// What one event does to the browser's knowledge.
pub open spec fn browser_step(v: BrowserView, ev: BrowserEvent) -> BrowserView {
    match ev {
        BrowserEvent::PeerFound { peer, addr } => BrowserView {
            addrs: v.addrs.insert(peer@, add_addr(addrs_of(v, peer@), addr@)),
            ..v
        },
        BrowserEvent::PeerLost { peer } => BrowserView {
            addrs: v.addrs.remove(peer@),
            metadata: v.metadata.remove(peer@),
            ..v
        },
        BrowserEvent::Identified { peer, agent_version } => match metadata_of(agent_version@) {
            Some(md) => BrowserView { metadata: v.metadata.insert(peer@, md), ..v },
            None => v,
        },
        BrowserEvent::RelayAnnouncement(ann) => match peer_id_of_str(ann.peer_id@) {
            None => v,
            Some(p) => {
                let parsed = parsed_addrs(string_views(ann.multiaddrs@));
                if parsed.len() == 0 {
                    v
                } else {
                    BrowserView {
                        relays: v.relays.insert(p, RelayView { multiaddrs: parsed, last_seen_unix_ms: ann.timestamp_unix_ms }),
                        ..v
                    }
                }
            },
        },
        BrowserEvent::LobbyAnnouncement(ann) => match peer_id_of_str(ann.host_peer_id@) {
            None => v,
            Some(p) => BrowserView {
                addrs: v.addrs.insert(p, add_addrs(addrs_of(v, p), parsed_addrs(string_views(ann.multiaddrs@)))),
                metadata: v.metadata.insert(p, MetadataView {
                    host_nick: ann.host_nick@,
                    players: ann.players,
                    state: ann.lifecycle@,
                    room_id: ann.room_id@,
                    last_seen_unix_ms: ann.timestamp_unix_ms,
                    mode: ann.mode,
                }),
                ..v
            },
        },
    }
}

proof fn lemma_add_addrs_contains(list: Seq<Seq<u8>>, new: Seq<Seq<u8>>)
    ensures
        forall|x: Seq<u8>| list.contains(x) ==> add_addrs(list, new).contains(x),
        forall|i: int| 0 <= i < new.len() ==> add_addrs(list, new).contains(#[trigger] new[i]),
    decreases new.len(),
{
    if new.len() > 0 {
        let r = add_addrs(list, new.drop_last());
        lemma_add_addrs_contains(list, new.drop_last());
        assert forall|x: Seq<u8>| r.contains(x) implies add_addr(r, new.last()).contains(x) by {
            if !r.contains(new.last()) {
                let k = choose|k: int| 0 <= k < r.len() && r[k] == x;
                assert(r.push(new.last())[k] == x);
            }
        }
        assert forall|i: int| 0 <= i < new.len() implies add_addrs(list, new).contains(#[trigger] new[i]) by {
            if i < new.len() - 1 {
                assert(new.drop_last()[i] == new[i]);
            } else if !r.contains(new.last()) {
                assert(r.push(new.last())[r.len() as int] == new.last());
            }
        }
    }
}

proof fn lemma_add_addrs_present(list: Seq<Seq<u8>>, new: Seq<Seq<u8>>)
    requires
        forall|i: int| 0 <= i < new.len() ==> list.contains(#[trigger] new[i]),
    ensures
        add_addrs(list, new) == list,
    decreases new.len(),
{
    if new.len() > 0 {
        assert forall|i: int| 0 <= i < new.drop_last().len() implies list.contains(#[trigger] new.drop_last()[i]) by {
            assert(new.drop_last()[i] == new[i]);
        }
        lemma_add_addrs_present(list, new.drop_last());
        assert(list.contains(new[new.len() - 1]));
    }
}

/// Taking in the same event twice is the same as taking it in once: a
/// repeated mDNS report, identify exchange or gossipsub record (lobby
/// records arrive every few seconds) adds no address twice and changes
/// nothing further.
pub proof fn law_event_idempotent(v: BrowserView, ev: BrowserEvent)
    ensures
        browser_step(browser_step(v, ev), ev) == browser_step(v, ev),
{
    let once = browser_step(v, ev);
    let twice = browser_step(once, ev);
    match ev {
        BrowserEvent::PeerFound { peer, addr } => {
            let l = add_addr(addrs_of(v, peer@), addr@);
            assert(addrs_of(once, peer@) == l);
            assert(l.contains(addr@)) by {
                if !addrs_of(v, peer@).contains(addr@) {
                    assert(l[l.len() - 1] == addr@);
                }
            }
            assert(twice.addrs =~= once.addrs);
        },
        BrowserEvent::PeerLost { peer } => {
            assert(twice.addrs =~= once.addrs);
            assert(twice.metadata =~= once.metadata);
        },
        BrowserEvent::Identified { peer, agent_version } => {
            if let Some(md) = metadata_of(agent_version@) {
                assert(twice.metadata =~= once.metadata);
            }
        },
        BrowserEvent::RelayAnnouncement(ann) => {
            if let Some(p) = peer_id_of_str(ann.peer_id@) {
                assert(twice.relays =~= once.relays);
            }
        },
        BrowserEvent::LobbyAnnouncement(ann) => {
            if let Some(p) = peer_id_of_str(ann.host_peer_id@) {
                let parsed = parsed_addrs(string_views(ann.multiaddrs@));
                let l = add_addrs(addrs_of(v, p), parsed);
                assert(addrs_of(once, p) == l);
                lemma_add_addrs_contains(addrs_of(v, p), parsed);
                lemma_add_addrs_present(l, parsed);
                assert(twice.addrs =~= once.addrs);
                assert(twice.metadata =~= once.metadata);
            }
        },
    }
}

/// Losing a peer that was unknown before it was found leaves the browser's
/// knowledge as it was before.
pub proof fn law_peer_lost_undoes_peer_found(v: BrowserView, peer: Vec<u8>, addr: Vec<u8>)
    requires
        !v.addrs.contains_key(peer@),
        !v.metadata.contains_key(peer@),
    ensures
        browser_step(browser_step(v, BrowserEvent::PeerFound { peer, addr }), BrowserEvent::PeerLost { peer }) == v,
{
    let r = browser_step(browser_step(v, BrowserEvent::PeerFound { peer, addr }), BrowserEvent::PeerLost { peer });
    assert(r.addrs =~= v.addrs);
    assert(r.metadata =~= v.metadata);
}

/// A lobby record that names a peer, taken in while fresh, lists that
/// peer's room with what the record says (whatever the browser knew of the
/// peer before).
pub proof fn law_fresh_lobby_record_is_listed(v: BrowserView, ann: LobbyAnnouncement, p: Seq<u8>, now: i64)
    requires
        peer_id_of_str(ann.host_peer_id@) == Some(p),
        !(ann.timestamp_unix_ms > 0 && now - ann.timestamp_unix_ms > LOBBY_ENTRY_TTL_MS),
    ensures
        ({
            let w = browser_step(v, BrowserEvent::LobbyAnnouncement(ann));
            &&& room_shown(w, p, now)
            &&& w.metadata[p] == MetadataView {
                host_nick: ann.host_nick@,
                players: ann.players,
                state: ann.lifecycle@,
                room_id: ann.room_id@,
                last_seen_unix_ms: ann.timestamp_unix_ms,
                mode: ann.mode,
            }
        }),
{
    reveal(room_shown);
}

/// A relay offer that names a peer and holds a readable address, taken in
/// while fresh, offers each of its readable addresses, ending in
/// `/p2p/<peer>`.
pub proof fn law_fresh_relay_offer_is_offered(v: BrowserView, ann: RelayAnnouncement, p: Seq<u8>, now: i64)
    requires
        peer_id_of_str(ann.peer_id@) == Some(p),
        parsed_addrs(string_views(ann.multiaddrs@)).len() > 0,
        !(ann.timestamp_unix_ms > 0 && now - ann.timestamp_unix_ms > RELAY_ENTRY_TTL_MS),
    ensures
        ({
            let w = browser_step(v, BrowserEvent::RelayAnnouncement(ann));
            let parsed = parsed_addrs(string_views(ann.multiaddrs@));
            forall|i: int| 0 <= i < parsed.len() ==> relay_offered(w, full_addr(#[trigger] parsed[i], p), now)
        }),
{
    let w = browser_step(v, BrowserEvent::RelayAnnouncement(ann));
    let parsed = parsed_addrs(string_views(ann.multiaddrs@));
    assert forall|i: int| 0 <= i < parsed.len() implies relay_offered(w, full_addr(#[trigger] parsed[i], p), now) by {
        assert(w.relays[p].multiaddrs[i] == parsed[i]);
    }
}

/// Whether a byte string is in the list.
fn list_contains(list: &Vec<Vec<u8>>, a: &[u8]) -> (r: bool)
    ensures
        r == views(list@).contains(a@),
{
    let mut i: usize = 0;
    while i < list.len()
        invariant
            i <= list@.len(),
            forall|j: int| 0 <= j < i ==> list@[j]@ != a@,
        decreases list@.len() - i,
    {
        if bytes_eq(list[i].as_slice(), a) {
            proof {
                assert(views(list@)[i as int] == a@);
            }
            return true;
        }
        i = i + 1;
    }
    proof {
        if views(list@).contains(a@) {
            let j = choose|j: int| 0 <= j < views(list@).len() && views(list@)[j] == a@;
            assert(list@[j]@ == a@);
        }
    }
    false
}

/// Adds an address unless it is there already.
pub(crate) fn push_new(list: &mut Vec<Vec<u8>>, a: Vec<u8>)
    ensures
        views(final(list)@) == add_addr(views(old(list)@), a@),
{
    if !list_contains(list, a.as_slice()) {
        let ghost before = list@;
        list.push(a);
        proof {
            assert(views(list@) =~= views(before).push(a@));
        }
    }
}

impl BrowserState {
    pub open spec fn wf(&self) -> bool {
        &&& unique_bkeys(self.addrs@)
        &&& unique_bkeys(self.metadata@)
        &&& unique_bkeys(self.relays@)
    }

    /// Knows nothing yet.
    pub fn new() -> (r: Self)
        ensures
            r.wf(),
            r@.addrs == Map::<Seq<u8>, Seq<Seq<u8>>>::empty(),
            r@.metadata == Map::<Seq<u8>, MetadataView>::empty(),
            r@.relays == Map::<Seq<u8>, RelayView>::empty(),
    {
        let r = BrowserState { addrs: Vec::new(), metadata: Vec::new(), relays: Vec::new() };
        proof {
            assert(r@.addrs =~= Map::<Seq<u8>, Seq<Seq<u8>>>::empty());
            assert(r@.metadata =~= Map::<Seq<u8>, MetadataView>::empty());
            assert(r@.relays =~= Map::<Seq<u8>, RelayView>::empty());
        }
        r
    }

    /// A copy of the addresses known for a peer.
    fn known_addrs(&self, peer: &[u8]) -> (r: Vec<Vec<u8>>)
        requires
            self.wf(),
        ensures
            views(r@) == addrs_of(self@, peer@),
    {
        match bfind(&self.addrs, peer) {
            Some(i) => {
                proof {
                    super::keyed::lemma_bkey_pos(self.addrs@, i as int);
                }
                copy_byte_list(&self.addrs[i].1.addrs)
            },
            None => {
                proof {
                    assert(views(Seq::<Vec<u8>>::empty()) =~= Seq::<Seq<u8>>::empty());
                }
                Vec::new()
            },
        }
    }

    /// Takes in one event.
    pub fn apply(&mut self, ev: BrowserEvent)
        requires
            old(self).wf(),
        ensures
            final(self).wf(),
            final(self)@ == browser_step(old(self)@, ev),
    {
        let ghost ev0 = ev;
        match ev {
            BrowserEvent::PeerFound { peer, addr } => {
                let mut list = self.known_addrs(peer.as_slice());
                push_new(&mut list, addr);
                bset(&mut self.addrs, peer, AddrList { addrs: list });
            },
            BrowserEvent::PeerLost { peer } => {
                bremove(&mut self.addrs, peer.as_slice());
                bremove(&mut self.metadata, peer.as_slice());
            },
            BrowserEvent::Identified { peer, agent_version } => {
                match parse_metadata(agent_version.as_str()) {
                    Some(md) => {
                        bset(&mut self.metadata, peer, md);
                    },
                    None => {},
                }
            },
            BrowserEvent::RelayAnnouncement(ann) => {
                let peer = match parse_peer_id(ann.peer_id.as_str()) {
                    Some(p) => p,
                    None => {
                        return;
                    },
                };
                let parsed = parse_all(&ann.multiaddrs);
                if parsed.len() == 0 {
                    return;
                }
                bset(&mut self.relays, peer, RelayPoolEntry { multiaddrs: parsed, last_seen_unix_ms: ann.timestamp_unix_ms });
            },
            BrowserEvent::LobbyAnnouncement(ann) => {
                let peer = match parse_peer_id(ann.host_peer_id.as_str()) {
                    Some(p) => p,
                    None => {
                        return;
                    },
                };
                let mut list = self.known_addrs(peer.as_slice());
                let parsed = parse_all(&ann.multiaddrs);
                let mut i: usize = 0;
                let ghost base = views(list@);
                proof {
                    assert(views(parsed@).take(0) =~= Seq::<Seq<u8>>::empty());
                }
                while i < parsed.len()
                    invariant
                        i <= parsed@.len(),
                        views(list@) == add_addrs(base, views(parsed@).take(i as int)),
                    decreases parsed@.len() - i,
                {
                    proof {
                        assert(views(parsed@).take(i + 1).drop_last() =~= views(parsed@).take(i as int));
                    }
                    push_new(&mut list, copy_bytes(&parsed[i]));
                    i = i + 1;
                }
                proof {
                    assert(views(parsed@).take(parsed@.len() as int) =~= views(parsed@));
                }
                bset(&mut self.addrs, copy_bytes(&peer), AddrList { addrs: list });
                let md = RoomMetadata {
                    host_nick: ann.host_nick,
                    players: ann.players,
                    state: ann.lifecycle,
                    room_id: ann.room_id,
                    last_seen_unix_ms: ann.timestamp_unix_ms,
                    mode: ann.mode,
                };
                bset(&mut self.metadata, peer, md);
            },
        }
    }
}

/// The strings that are multiaddresses, parsed, in order.
fn parse_all(strs: &Vec<String>) -> (r: Vec<Vec<u8>>)
    ensures
        views(r@) == parsed_addrs(string_views(strs@)),
{
    let mut out: Vec<Vec<u8>> = Vec::new();
    let mut i: usize = 0;
    let ghost sv = string_views(strs@);
    proof {
        assert(sv.take(0) =~= Seq::<Seq<char>>::empty());
        assert(views(out@) =~= Seq::<Seq<u8>>::empty());
    }
    while i < strs.len()
        invariant
            sv == string_views(strs@),
            i <= strs@.len(),
            views(out@) == parsed_addrs(sv.take(i as int)),
        decreases strs@.len() - i,
    {
        proof {
            assert(sv.take(i + 1).drop_last() =~= sv.take(i as int));
            assert(sv.take(i + 1).last() == strs@[i as int]@);
        }
        match parse_multiaddr(strs[i].as_str()) {
            Some(b) => {
                let ghost before = out@;
                out.push(b);
                proof {
                    assert(views(out@) =~= views(before).push(b@));
                }
            },
            None => {},
        }
        i = i + 1;
    }
    proof {
        assert(sv.take(strs@.len() as int) =~= sv);
    }
    out
}

// ---------------------------------------------------------------------------
// Listing rooms
// ---------------------------------------------------------------------------

/// A room as the lobby lists it.
#[derive(Debug, Clone)]
pub struct RoomEntry {
    pub peer_id: Vec<u8>,
    pub addrs: Vec<Vec<u8>>,
    pub host_nick: String,
    pub players: u8,
    /// `lobby`, `in_game`, ...
    pub state: String,
    pub room_id: String,
    pub mode: RoomMode,
}

/// `a` sorts strictly before `b`, char by char (the order of `String`).
pub open spec fn chars_lt(a: Seq<char>, b: Seq<char>) -> bool
    decreases a.len(),
{
    if a.len() == 0 {
        b.len() > 0
    } else if b.len() == 0 {
        false
    } else if a[0] != b[0] {
        (a[0] as int) < (b[0] as int)
    } else {
        chars_lt(a.drop_first(), b.drop_first())
    }
}

pub open spec fn nick_le(a: Seq<char>, b: Seq<char>) -> bool {
    a == b || chars_lt(a, b)
}

pub(crate) proof fn lemma_chars_total(a: Seq<char>, b: Seq<char>)
    ensures
        a == b || chars_lt(a, b) || chars_lt(b, a),
        !(chars_lt(a, b) && chars_lt(b, a)),
        !chars_lt(a, a),
    decreases a.len(),
{
    if a.len() > 0 && b.len() > 0 && a[0] == b[0] {
        lemma_chars_total(a.drop_first(), b.drop_first());
        if a.drop_first() == b.drop_first() {
            assert(a =~= seq![a[0]] + a.drop_first());
            assert(b =~= seq![b[0]] + b.drop_first());
        }
    } else if a.len() == 0 && b.len() == 0 {
        assert(a =~= b);
    }
    if a.len() > 0 {
        lemma_chars_total(a.drop_first(), a.drop_first());
    }
}

pub(crate) proof fn lemma_chars_transitive(a: Seq<char>, b: Seq<char>, c: Seq<char>)
    requires
        chars_lt(a, b),
        chars_lt(b, c),
    ensures
        chars_lt(a, c),
    decreases a.len(),
{
    if a.len() > 0 && b.len() > 0 && c.len() > 0 && a[0] == b[0] && b[0] == c[0] {
        lemma_chars_transitive(a.drop_first(), b.drop_first(), c.drop_first());
    }
}

/// `a` sorts strictly before `b`.
pub(crate) fn nick_lt(a: &str, b: &str) -> (r: bool)
    ensures
        r == chars_lt(a@, b@),
{
    let n = a.unicode_len();
    let m = b.unicode_len();
    let mut i: usize = 0;
    proof {
        assert(a@.skip(0) =~= a@);
        assert(b@.skip(0) =~= b@);
    }
    while i < n && i < m
        invariant
            n == a@.len(),
            m == b@.len(),
            i <= n,
            i <= m,
            chars_lt(a@, b@) == chars_lt(a@.skip(i as int), b@.skip(i as int)),
        decreases n - i,
    {
        let ca = a.get_char(i);
        let cb = b.get_char(i);
        proof {
            let sa = a@.skip(i as int);
            let sb = b@.skip(i as int);
            assert(sa[0] == ca && sb[0] == cb);
            assert(sa.drop_first() =~= a@.skip(i + 1));
            assert(sb.drop_first() =~= b@.skip(i + 1));
        }
        if ca != cb {
            return (ca as u32) < (cb as u32);
        }
        i = i + 1;
    }
    proof {
        let sa = a@.skip(i as int);
        let sb = b@.skip(i as int);
        if i == n {
            assert(sa.len() == 0);
        } else {
            assert(sb.len() == 0);
        }
    }
    i == n && i < m
}

/// Listed at `now`: the peer has addresses and metadata, and its metadata is
/// not a stale lobby announcement (LAN entries, with no timestamp, never go
/// stale).
#[verifier::opaque]
pub open spec fn room_shown(v: BrowserView, p: Seq<u8>, now: i64) -> bool {
    &&& v.addrs.contains_key(p)
    &&& v.metadata.contains_key(p)
    &&& !(v.metadata[p].last_seen_unix_ms > 0 && now - v.metadata[p].last_seen_unix_ms > LOBBY_ENTRY_TTL_MS)
}

/// The entry shows what the browser knows of its peer.
#[verifier::opaque]
pub open spec fn entry_matches(v: BrowserView, e: RoomEntry) -> bool {
    let p = e.peer_id@;
    let md = v.metadata[p];
    &&& views(e.addrs@) == v.addrs[p]
    &&& e.host_nick@ == md.host_nick
    &&& e.players == md.players
    &&& e.state@ == md.state
    &&& e.room_id@ == md.room_id
    &&& e.mode == md.mode
}

pub open spec fn sorted_by_nick(s: Seq<RoomEntry>) -> bool {
    forall|i: int, j: int| 0 <= i < j < s.len() ==> nick_le(s[i].host_nick@, s[j].host_nick@)
}

proof fn lemma_insert_by_nick(s: Seq<RoomEntry>, x: RoomEntry, j: int)
    requires
        sorted_by_nick(s),
        0 <= j <= s.len(),
        forall|t: int| 0 <= t < j ==> !chars_lt(x.host_nick@, #[trigger] s[t].host_nick@),
        j < s.len() ==> chars_lt(x.host_nick@, s[j].host_nick@),
    ensures
        sorted_by_nick(s.insert(j, x)),
{
    let r = s.insert(j, x);
    assert forall|a: int, b: int| 0 <= a < b < r.len() implies nick_le(r[a].host_nick@, r[b].host_nick@) by {
        if a < j && b == j {
            lemma_chars_total(x.host_nick@, s[a].host_nick@);
        } else if a == j {
            let y = s[b - 1];
            if b - 1 > j {
                assert(nick_le(s[j].host_nick@, y.host_nick@));
                if chars_lt(s[j].host_nick@, y.host_nick@) {
                    lemma_chars_transitive(x.host_nick@, s[j].host_nick@, y.host_nick@);
                }
            }
        } else {
            let a0 = if a < j { a } else { a - 1 };
            let b0 = if b < j { b } else { b - 1 };
            assert(r[a] == s[a0] && r[b] == s[b0]);
        }
    }
}

/// The entries listed from the first `k` address entries.
pub open spec fn rooms_inv(st: BrowserState, out: Seq<RoomEntry>, k: int, now: i64) -> bool {
    &&& sorted_by_nick(out)
    &&& forall|i: int| 0 <= i < out.len() ==> room_shown(st@, (#[trigger] out[i]).peer_id@, now) && entry_matches(st@, out[i])
    &&& forall|i: int, j: int| 0 <= i < j < out.len() ==> out[i].peer_id@ != out[j].peer_id@
    &&& forall|i: int| 0 <= i < out.len() ==> exists|t: int| 0 <= t < k && (#[trigger] out[i]).peer_id@ == st.addrs@[t].0@
    &&& forall|t: int| 0 <= t < k && room_shown(st@, #[trigger] st.addrs@[t].0@, now) ==> exists|i: int| 0 <= i < out.len() && out[i].peer_id@ == st.addrs@[t].0@
}

/// Inserts an entry before the first entry whose nickname sorts after its own.
fn insert_by_nick(out: &mut Vec<RoomEntry>, e: RoomEntry)
    requires
        sorted_by_nick(old(out)@),
    ensures
        sorted_by_nick(final(out)@),
        exists|j: int| 0 <= j <= old(out)@.len() && final(out)@ == old(out)@.insert(j, e),
{
    let mut j: usize = 0;
    while j < out.len()
        invariant
            j <= out@.len(),
            forall|t: int| 0 <= t < j ==> !chars_lt(e.host_nick@, #[trigger] out@[t].host_nick@),
        ensures
            j <= out@.len(),
            forall|t: int| 0 <= t < j ==> !chars_lt(e.host_nick@, #[trigger] out@[t].host_nick@),
            j < out@.len() ==> chars_lt(e.host_nick@, out@[j as int].host_nick@),
        decreases out@.len() - j,
    {
        if nick_lt(e.host_nick.as_str(), out[j].host_nick.as_str()) {
            break;
        }
        j = j + 1;
    }
    proof {
        lemma_insert_by_nick(out@, e, j as int);
    }
    out.insert(j, e);
}


proof fn lemma_list_skip(st: BrowserState, out: Seq<RoomEntry>, k: int, now: i64)
    requires
        0 <= k < st.addrs@.len(),
        rooms_inv(st, out, k, now),
        !room_shown(st@, st.addrs@[k].0@, now),
    ensures
        rooms_inv(st, out, k + 1, now),
{
    assert forall|i: int| 0 <= i < out.len() implies exists|t: int| 0 <= t < k + 1 && (#[trigger] out[i]).peer_id@ == st.addrs@[t].0@ by {
        let t = choose|t: int| 0 <= t < k && (#[trigger] out[i]).peer_id@ == st.addrs@[t].0@;
    }
}

#[verifier::rlimit(80)]
proof fn lemma_list_step(st: BrowserState, before: Seq<RoomEntry>, e: RoomEntry, r: Seq<RoomEntry>, j: int, k: int, now: i64)
    requires
        st.wf(),
        0 <= k < st.addrs@.len(),
        rooms_inv(st, before, k, now),
        e.peer_id@ == st.addrs@[k].0@,
        room_shown(st@, e.peer_id@, now),
        entry_matches(st@, e),
        0 <= j <= before.len(),
        r == before.insert(j, e),
        sorted_by_nick(r),
    ensures
        rooms_inv(st, r, k + 1, now),
{
    assert forall|i: int| 0 <= i < before.len() implies before[i].peer_id@ != e.peer_id@ by {
        let t = choose|t: int| 0 <= t < k && (#[trigger] before[i]).peer_id@ == st.addrs@[t].0@;
        assert(st.addrs@[t].0@ != st.addrs@[k].0@);
    }
    assert forall|i: int| 0 <= i < r.len() implies #[trigger] r[i] == (if i < j { before[i] } else if i == j { e } else { before[i - 1] }) by {}
    assert forall|i: int| 0 <= i < r.len() implies room_shown(st@, (#[trigger] r[i]).peer_id@, now) && entry_matches(st@, r[i]) by {
        if i != j {
            let a0 = if i < j { i } else { i - 1 };
            assert(r[i] == before[a0]);
        }
    }
    assert forall|i: int, i2: int| 0 <= i < i2 < r.len() implies r[i].peer_id@ != r[i2].peer_id@ by {
        if i != j && i2 != j {
            let a0 = if i < j { i } else { i - 1 };
            let b0 = if i2 < j { i2 } else { i2 - 1 };
            assert(r[i] == before[a0] && r[i2] == before[b0]);
        } else if i == j {
            assert(r[i2] == before[i2 - 1]);
        } else {
            assert(r[i] == before[i]);
        }
    }
    assert forall|i: int| 0 <= i < r.len() implies exists|t: int| 0 <= t < k + 1 && (#[trigger] r[i]).peer_id@ == st.addrs@[t].0@ by {
        if i == j {
            assert(r[i].peer_id@ == st.addrs@[k].0@);
        } else {
            let a0 = if i < j { i } else { i - 1 };
            assert(r[i] == before[a0]);
            let t = choose|t: int| 0 <= t < k && (#[trigger] before[a0]).peer_id@ == st.addrs@[t].0@;
        }
    }
    assert forall|t: int| 0 <= t < k + 1 && room_shown(st@, #[trigger] st.addrs@[t].0@, now) implies exists|i: int| 0 <= i < r.len() && r[i].peer_id@ == st.addrs@[t].0@ by {
        if t == k {
            assert(r[j].peer_id@ == st.addrs@[t].0@);
        } else {
            let i = choose|i: int| 0 <= i < before.len() && before[i].peer_id@ == st.addrs@[t].0@;
            let i2 = if i < j { i } else { i + 1 };
            assert(r[i2] == before[i]);
        }
    }
}

impl BrowserState {
    /// Lists address entry `k` if its room is shown.
    fn list_entry(&self, k: usize, now: i64, out: &mut Vec<RoomEntry>)
        requires
            self.wf(),
            k < self.addrs@.len(),
            rooms_inv(*self, old(out)@, k as int, now),
        ensures
            rooms_inv(*self, final(out)@, k + 1, now),
    {
        let key = &self.addrs[k].0;
        proof {
            super::keyed::lemma_bkey_pos(self.addrs@, k as int);
        }
        let mi = match bfind(&self.metadata, key.as_slice()) {
            None => {
                proof {
                    reveal(room_shown);
                    lemma_list_skip(*self, out@, k as int, now);
                }
                return;
            },
            Some(mi) => mi,
        };
        let md = &self.metadata[mi].1;
        proof {
            super::keyed::lemma_bkey_pos(self.metadata@, mi as int);
        }
        let stale = md.last_seen_unix_ms > 0 && (now as i128) - (md.last_seen_unix_ms as i128) > (LOBBY_ENTRY_TTL_MS as i128);
        if stale {
            proof {
                reveal(room_shown);
                lemma_list_skip(*self, out@, k as int, now);
            }
            return;
        }
        let e = RoomEntry {
            peer_id: copy_bytes(key),
            addrs: copy_byte_list(&self.addrs[k].1.addrs),
            host_nick: md.host_nick.clone(),
            players: md.players,
            state: md.state.clone(),
            room_id: md.room_id.clone(),
            mode: md.mode,
        };
        let ghost before = out@;
        proof {
            reveal(room_shown);
            reveal(entry_matches);
            assert(room_shown(self@, e.peer_id@, now));
            assert(entry_matches(self@, e));
            assert(e.peer_id@ == self.addrs@[k as int].0@);
            assert forall|i: int| 0 <= i < before.len() implies before[i].peer_id@ != e.peer_id@ by {
                let t = choose|t: int| 0 <= t < k && (#[trigger] before[i]).peer_id@ == self.addrs@[t].0@;
                assert(self.addrs@[t].0@ != self.addrs@[k as int].0@);
            }
        }
        insert_by_nick(out, e);
        proof {
            let r = out@;
            let j = choose|j: int| 0 <= j <= before.len() && r == before.insert(j, e);
            lemma_list_step(*self, before, e, r, j, k as int, now);
        }
    }

    /// The rooms to list at `now` (Unix milliseconds), sorted by host
    /// nickname; lobby announcements older than the TTL are left out. Rooms
    /// with equal nicknames come in no promised order.
    pub fn rooms_at(&self, now: i64) -> (r: Vec<RoomEntry>)
        requires
            self.wf(),
        ensures
            sorted_by_nick(r@),
            forall|i: int| 0 <= i < r@.len() ==> room_shown(self@, (#[trigger] r@[i]).peer_id@, now) && entry_matches(self@, r@[i]),
            forall|i: int, j: int| 0 <= i < j < r@.len() ==> r@[i].peer_id@ != r@[j].peer_id@,
            forall|p: Seq<u8>| room_shown(self@, p, now) ==> exists|i: int| 0 <= i < r@.len() && (#[trigger] r@[i]).peer_id@ == p,
    {
        let mut out: Vec<RoomEntry> = Vec::new();
        let mut k: usize = 0;
        while k < self.addrs.len()
            invariant
                self.wf(),
                k <= self.addrs@.len(),
                rooms_inv(*self, out@, k as int, now),
            decreases self.addrs@.len() - k,
        {
            self.list_entry(k, now, &mut out);
            k = k + 1;
        }
        proof {
            assert forall|p: Seq<u8>| room_shown(self@, p, now) implies exists|i: int| 0 <= i < out@.len() && (#[trigger] out@[i]).peer_id@ == p by {
                reveal(room_shown);
                assert(bmap(self.addrs@).contains_key(p));
                assert(has_bkey(self.addrs@, p));
                let t = choose|t: int| 0 <= t < self.addrs@.len() && (#[trigger] self.addrs@[t]).0@ == p;
                assert(room_shown(self@, self.addrs@[t].0@, now));
            }
        }
        out
    }
}
// ---------------------------------------------------------------------------
// The relay pool
// ---------------------------------------------------------------------------

/// A relay offer that is not stale at `now`.
pub open spec fn relay_live(r: RelayView, now: i64) -> bool {
    !(r.last_seen_unix_ms > 0 && now - r.last_seen_unix_ms > RELAY_ENTRY_TTL_MS)
}

/// An offered address, ending in `/p2p/<peer>` (appended unless present).
pub open spec fn full_addr(a: Seq<u8>, peer: Seq<u8>) -> Seq<u8> {
    if multiaddr_has_p2p(a) {
        a
    } else {
        multiaddr_with_p2p(a, peer)
    }
}

/// `x` is offered as a relay at `now`.
pub open spec fn relay_offered(v: BrowserView, x: Seq<u8>, now: i64) -> bool {
    exists|p: Seq<u8>, i: int|
        #![trigger v.relays[p].multiaddrs[i]]
        v.relays.contains_key(p) && relay_live(v.relays[p], now) && 0 <= i < v.relays[p].multiaddrs.len()
            && x == full_addr(v.relays[p].multiaddrs[i], p)
}

/// `x` comes from address `i` of pool entry `t`, and that entry is live.
pub open spec fn offered_at(st: BrowserState, t: int, i: int, x: Seq<u8>, now: i64) -> bool {
    &&& 0 <= t < st.relays@.len()
    &&& relay_live(st.relays@[t].1@, now)
    &&& 0 <= i < st.relays@[t].1.multiaddrs@.len()
    &&& x == full_addr(st.relays@[t].1.multiaddrs@[i]@, st.relays@[t].0@)
}

/// The offers from entries before `k`, and from the first `j` addresses of
/// entry `k`, each once.
pub open spec fn relays_inv(st: BrowserState, out: Seq<Seq<u8>>, k: int, j: int, now: i64) -> bool {
    &&& out.no_duplicates()
    &&& forall|x: Seq<u8>| out.contains(x) <==> exists|t: int, i: int|
        #![trigger offered_at(st, t, i, x, now)]
        (t < k || (t == k && i < j)) && offered_at(st, t, i, x, now)
}

impl BrowserState {
    /// Offers the addresses of pool entry `k`, if it is live.
    fn offer_entry(&self, k: usize, now: i64, out: &mut Vec<Vec<u8>>)
        requires
            self.wf(),
            k < self.relays@.len(),
            relays_inv(*self, views(old(out)@), k as int, 0, now),
        ensures
            relays_inv(*self, views(final(out)@), k + 1, 0, now),
    {
        let peer = &self.relays[k].0;
        let entry = &self.relays[k].1;
        let stale = entry.last_seen_unix_ms > 0
            && (now as i128) - (entry.last_seen_unix_ms as i128) > (RELAY_ENTRY_TTL_MS as i128);
        if stale {
            proof {
                assert forall|x: Seq<u8>| views(out@).contains(x) <==> exists|t: int, i: int|
                    #![trigger offered_at(*self, t, i, x, now)]
                    (t < k + 1 || (t == k + 1 && i < 0)) && offered_at(*self, t, i, x, now) by {
                    if views(out@).contains(x) {
                        let (t, i) = choose|t: int, i: int| (t < k || (t == k && i < 0)) && offered_at(*self, t, i, x, now);
                        assert(offered_at(*self, t, i, x, now));
                    }
                    if exists|t: int, i: int| (t < k + 1 || (t == k + 1 && i < 0)) && offered_at(*self, t, i, x, now) {
                        let (t, i) = choose|t: int, i: int| (t < k + 1 || (t == k + 1 && i < 0)) && offered_at(*self, t, i, x, now);
                        assert(t != k);
                        assert(offered_at(*self, t, i, x, now));
                    }
                }
            }
            return;
        }
        let mut j: usize = 0;
        while j < entry.multiaddrs.len()
            invariant
                self.wf(),
                k < self.relays@.len(),
                entry == self.relays@[k as int].1,
                peer == self.relays@[k as int].0,
                relay_live(entry@, now),
                j <= entry.multiaddrs@.len(),
                relays_inv(*self, views(out@), k as int, j as int, now),
            decreases entry.multiaddrs@.len() - j,
        {
            let a = &entry.multiaddrs[j];
            let full = if has_p2p(a.as_slice()) {
                copy_bytes(a)
            } else {
                append_p2p(a.as_slice(), peer.as_slice())
            };
            let ghost fx = full@;
            proof {
                assert(fx == full_addr(entry.multiaddrs@[j as int]@, peer@));
                assert(offered_at(*self, k as int, j as int, fx, now));
            }
            let ghost before = views(out@);
            let present = list_contains(out, full.as_slice());
            if !present {
                out.push(full);
                proof {
                    assert(views(out@) =~= before.push(fx));
                    assert forall|a: int, b: int| 0 <= a < b < views(out@).len() implies views(out@)[a] != views(out@)[b] by {
                        if b == before.len() {
                            assert(views(out@)[a] == before[a]);
                        }
                    }
                }
            }
            proof {
                let now_out = views(out@);
                assert(present ==> now_out == before && before.contains(fx));
                assert(!present ==> now_out == before.push(fx));
                assert(now_out.contains(fx)) by {
                    if !present {
                        assert(now_out[before.len() as int] == fx);
                    }
                }
                assert forall|x: Seq<u8>| now_out.contains(x) <==> exists|t: int, i: int|
                    #![trigger offered_at(*self, t, i, x, now)]
                    (t < k || (t == k && i < j + 1)) && offered_at(*self, t, i, x, now) by {
                    if x == fx {
                        assert(offered_at(*self, k as int, j as int, x, now));
                    }
                    if now_out.contains(x) && x != fx {
                        if !present {
                            let q = choose|q: int| 0 <= q < now_out.len() && now_out[q] == x;
                            assert(q < before.len());
                            assert(before[q] == x);
                        }
                        assert(before.contains(x));
                        let (t, i) = choose|t: int, i: int| (t < k || (t == k && i < j)) && offered_at(*self, t, i, x, now);
                        assert(offered_at(*self, t, i, x, now));
                    }
                    if exists|t: int, i: int| (t < k || (t == k && i < j + 1)) && offered_at(*self, t, i, x, now) {
                        let (t, i) = choose|t: int, i: int| (t < k || (t == k && i < j + 1)) && offered_at(*self, t, i, x, now);
                        if !(t == k && i == j) {
                            assert(offered_at(*self, t, i, x, now));
                            assert(before.contains(x));
                            if !present {
                                let q = choose|q: int| 0 <= q < before.len() && before[q] == x;
                                assert(now_out[q] == x);
                            }
                        }
                    }
                }
            }
            j = j + 1;
        }
        proof {
            let o = views(out@);
            assert forall|x: Seq<u8>| o.contains(x) <==> exists|t: int, i: int|
                #![trigger offered_at(*self, t, i, x, now)]
                (t < k + 1 || (t == k + 1 && i < 0)) && offered_at(*self, t, i, x, now) by {
                if o.contains(x) {
                    let (t, i) = choose|t: int, i: int| (t < k || (t == k && i < j)) && offered_at(*self, t, i, x, now);
                    assert(offered_at(*self, t, i, x, now));
                }
                if exists|t: int, i: int| (t < k + 1 || (t == k + 1 && i < 0)) && offered_at(*self, t, i, x, now) {
                    let (t, i) = choose|t: int, i: int| (t < k + 1 || (t == k + 1 && i < 0)) && offered_at(*self, t, i, x, now);
                    assert(offered_at(*self, t, i, x, now));
                }
            }
        }
    }

    /// The relay addresses to offer at `now`, each once, each ending in
    /// `/p2p/<peer>`; offers older than the TTL are left out. The order is not
    /// promised.
    pub fn relays_at(&self, now: i64) -> (r: Vec<Vec<u8>>)
        requires
            self.wf(),
        ensures
            views(r@).no_duplicates(),
            forall|x: Seq<u8>| views(r@).contains(x) <==> relay_offered(self@, x, now),
    {
        let mut out: Vec<Vec<u8>> = Vec::new();
        let mut k: usize = 0;
        proof {
            assert(views(out@) =~= Seq::<Seq<u8>>::empty());
        }
        while k < self.relays.len()
            invariant
                self.wf(),
                k <= self.relays@.len(),
                relays_inv(*self, views(out@), k as int, 0, now),
            decreases self.relays@.len() - k,
        {
            self.offer_entry(k, now, &mut out);
            k = k + 1;
        }
        proof {
            let o = views(out@);
            assert forall|x: Seq<u8>| o.contains(x) <==> relay_offered(self@, x, now) by {
                if o.contains(x) {
                    let (t, i) = choose|t: int, i: int| (t < k || (t == k && i < 0)) && offered_at(*self, t, i, x, now);
                    super::keyed::lemma_bkey_pos(self.relays@, t);
                    let p = self.relays@[t].0@;
                    assert(self@.relays.contains_key(p));
                    assert(self@.relays[p] == self.relays@[t].1@);
                    assert(self@.relays[p].multiaddrs[i] == self.relays@[t].1.multiaddrs@[i]@);
                }
                if relay_offered(self@, x, now) {
                    let (p, i) = choose|p: Seq<u8>, i: int|
                        #![trigger self@.relays[p].multiaddrs[i]]
                        self@.relays.contains_key(p) && relay_live(self@.relays[p], now) && 0 <= i < self@.relays[p].multiaddrs.len()
                            && x == full_addr(self@.relays[p].multiaddrs[i], p);
                    assert(has_bkey(self.relays@, p));
                    let t = choose|t: int| 0 <= t < self.relays@.len() && (#[trigger] self.relays@[t]).0@ == p;
                    super::keyed::lemma_bkey_pos(self.relays@, t);
                    assert(self@.relays[p].multiaddrs[i] == self.relays@[t].1.multiaddrs@[i]@);
                    assert(offered_at(*self, t, i, x, now));
                }
            }
        }
        out
    }
}

// ---------------------------------------------------------------------------
// Addresses of a listed room
// ---------------------------------------------------------------------------

/// The position of the first QUIC address.
pub open spec fn first_quic(s: Seq<Seq<u8>>) -> Option<int>
    decreases s.len(),
{
    if s.len() == 0 {
        None
    } else {
        match first_quic(s.drop_last()) {
            Some(i) => Some(i),
            None => if multiaddr_is_quic(s.last()) {
                Some(s.len() - 1)
            } else {
                None
            },
        }
    }
}

/// The address to dial: the first QUIC address, else the first address.
pub open spec fn primary_of(s: Seq<Seq<u8>>) -> Option<Seq<u8>> {
    match first_quic(s) {
        Some(i) => Some(s[i]),
        None => if s.len() > 0 {
            Some(s[0])
        } else {
            None
        },
    }
}

/// The position of the address to dial in a list: the first QUIC address,
/// else the first address.
pub fn primary_index(addrs: &Vec<Vec<u8>>) -> (r: Option<usize>)
    ensures
        match r {
            Some(i) => i < addrs@.len() && primary_of(views(addrs@)) == Some(addrs@[i as int]@),
            None => primary_of(views(addrs@)) is None,
        },
{
    let ghost v = views(addrs@);
    let mut i: usize = 0;
    proof {
        assert(v.take(0) =~= Seq::<Seq<u8>>::empty());
    }
    while i < addrs.len()
        invariant
            v == views(addrs@),
            i <= addrs@.len(),
            first_quic(v.take(i as int)) is None,
        decreases addrs@.len() - i,
    {
        proof {
            assert(v.take(i + 1).drop_last() =~= v.take(i as int));
            assert(v.take(i + 1).last() == addrs@[i as int]@);
        }
        if is_quic(addrs[i].as_slice()) {
            proof {
                lemma_first_quic_prefix(v, i + 1);
            }
            return Some(i);
        }
        i = i + 1;
    }
    proof {
        assert(v.take(addrs@.len() as int) =~= v);
    }
    if addrs.len() > 0 {
        Some(0)
    } else {
        None
    }
}

impl RoomEntry {
    /// The address to dial: the first QUIC address, else the first address.
    pub fn primary_addr(&self) -> (r: Option<&Vec<u8>>)
        ensures
            match r {
                Some(a) => primary_of(views(self.addrs@)) == Some(a@),
                None => primary_of(views(self.addrs@)) is None,
            },
    {
        match primary_index(&self.addrs) {
            Some(i) => Some(&self.addrs[i]),
            None => None,
        }
    }

    /// The primary address with `/p2p/<peer>` appended: what a joiner dials.
    pub fn dial_multiaddr(&self) -> (r: Option<Vec<u8>>)
        ensures
            match r {
                Some(a) => primary_of(views(self.addrs@)) matches Some(p) && a@ == multiaddr_with_p2p(p, self.peer_id@),
                None => primary_of(views(self.addrs@)) is None,
            },
    {
        match self.primary_addr() {
            Some(a) => Some(append_p2p(a.as_slice(), self.peer_id.as_slice())),
            None => None,
        }
    }

    /// The primary address as text, or `?` when the room has no address.
    pub fn addr(&self) -> (r: String)
        ensures
            r@ == match primary_of(views(self.addrs@)) {
                Some(a) => multiaddr_text(a),
                None => "?"@,
            },
    {
        match self.primary_addr() {
            Some(a) => multiaddr_to_string(a.as_slice()),
            None => String::from_str("?"),
        }
    }
}

/// A QUIC address found in a prefix is the first one of the whole list.
proof fn lemma_first_quic_prefix(s: Seq<Seq<u8>>, n: int)
    requires
        0 <= n <= s.len(),
        first_quic(s.take(n)) is Some,
    ensures
        first_quic(s) == first_quic(s.take(n)),
    decreases s.len(),
{
    if n < s.len() {
        assert(s.drop_last().take(n) =~= s.take(n));
        lemma_first_quic_prefix(s.drop_last(), n);
    } else {
        assert(s.take(n) =~= s);
    }
}

} // verus!
