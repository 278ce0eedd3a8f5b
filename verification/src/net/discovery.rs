//! Rooms advertised on the LAN over mDNS (DNS-SD): the instance name and TXT
//! properties a host registers, and the table of rooms a browser has
//! resolved. The mDNS daemon runs outside the library; it hands resolved
//! services over as plain values.

use vstd::prelude::*;
use vstd::string::{StrSliceExecFns, StringExecFns};
use crate::net::p2p::browser::{chars_lt, lemma_chars_total, lemma_chars_transitive, nick_le, nick_lt};
use crate::net::p2p::discovery::{decimal_u8, digit_char, digit_str, parse_u8, parse_u8_range, push_decimal};
use crate::net::text::str_eq;

verus! {

/// The DNS-SD service type of a room.
pub const SERVICE_TYPE: &'static str = "_tui-majo._tcp.local.";

/// An ASCII letter or digit.
pub open spec fn is_ascii_alnum(c: char) -> bool {
    ||| ('0' as int <= c as int <= '9' as int)
    ||| ('a' as int <= c as int <= 'z' as int)
    ||| ('A' as int <= c as int <= 'Z' as int)
}

/// The ASCII letters and digits of a string, in order.
pub open spec fn alnum_only(s: Seq<char>) -> Seq<char>
    decreases s.len(),
{
    if s.len() == 0 {
        Seq::empty()
    } else {
        let r = alnum_only(s.drop_last());
        if is_ascii_alnum(s.last()) {
            r.push(s.last())
        } else {
            r
        }
    }
}

/// The first `n` chars (all of them when there are fewer).
pub open spec fn at_most(s: Seq<char>, n: int) -> Seq<char> {
    if s.len() <= n {
        s
    } else {
        s.take(n)
    }
}

/// The service instance name: up to twelve letters and digits of the host's
/// nickname (`host` when it has none), a hyphen, and up to the first six
/// chars of the room id.
pub open spec fn instance_name(host_nick: Seq<char>, room_id: Seq<char>) -> Seq<char> {
    let safe = at_most(alnum_only(host_nick), 12);
    let prefix = at_most(room_id, 6);
    if safe.len() == 0 {
        "host-"@ + prefix
    } else {
        safe + "-"@ + prefix
    }
}

/// A number in decimal, without leading zeros.
pub open spec fn decimal(n: nat) -> Seq<char>
    decreases n,
{
    if n < 10 {
        seq![digit_char(n as int)]
    } else {
        decimal(n / 10).push(digit_char((n % 10) as int))
    }
}

/// `host:port` for an IPv4 address given by its octets.
pub open spec fn socket_text(ip: [u8; 4], port: u16) -> Seq<char> {
    decimal(ip[0] as nat) + "."@ + decimal(ip[1] as nat) + "."@ + decimal(ip[2] as nat) + "."@
        + decimal(ip[3] as nat) + ":"@ + decimal(port as nat)
}

/// Whether a char is an ASCII letter or digit.
fn ascii_alnum(c: char) -> (r: bool)
    ensures
        r == is_ascii_alnum(c),
{
    (c >= '0' && c <= '9') || (c >= 'a' && c <= 'z') || (c >= 'A' && c <= 'Z')
}

/// The service instance name a host registers.
pub fn mdns_instance_name(host_nick: &str, room_id: &str) -> (r: String)
    ensures
        r@ == instance_name(host_nick@, room_id@),
{
    let n = host_nick.unicode_len();
    let mut safe = String::new();
    let mut i: usize = 0;
    proof {
        assert(host_nick@.take(0) =~= Seq::<char>::empty());
    }
    while i < n
        invariant
            n == host_nick@.len(),
            i <= n,
            safe@ == at_most(alnum_only(host_nick@.take(i as int)), 12),
        decreases n - i,
    {
        let c = host_nick.get_char(i);
        let ghost before = alnum_only(host_nick@.take(i as int));
        proof {
            assert(host_nick@.take(i + 1).drop_last() =~= host_nick@.take(i as int));
            assert(host_nick@.take(i + 1).last() == c);
        }
        if ascii_alnum(c) {
            if safe.unicode_len() < 12 {
                safe.append(host_nick.substring_char(i, i + 1));
                proof {
                    assert(host_nick@.subrange(i as int, i + 1) =~= seq![c]);
                    assert(safe@ =~= before.push(c));
                }
            } else {
                proof {
                    assert(before.push(c).take(12) =~= before.take(12));
                }
            }
        }
        i = i + 1;
    }
    proof {
        assert(host_nick@.take(n as int) =~= host_nick@);
    }
    let m = room_id.unicode_len();
    let k = if m < 6 {
        m
    } else {
        6
    };
    let prefix = room_id.substring_char(0, k);
    proof {
        if m <= 6 {
            assert(room_id@.subrange(0, k as int) =~= room_id@);
        } else {
            assert(room_id@.subrange(0, k as int) =~= room_id@.take(6));
        }
    }
    if safe.unicode_len() == 0 {
        let mut out = String::from_str("host-");
        out.append(prefix);
        out
    } else {
        safe.append("-");
        safe.append(prefix);
        safe
    }
}

/// The host name registered beside the instance: `<instance>.local.`.
pub fn mdns_host_name(instance: &str) -> (r: String)
    ensures
        r@ == instance@ + ".local."@,
{
    let mut out = String::from_str(instance);
    out.append(".local.");
    out
}

/// The TXT properties of a room: `room_id`, `host_nick`, `players` (in
/// decimal) and `state`.
pub fn mdns_properties(room_id: &str, host_nick: &str, players: u8, lifecycle: &str) -> (r: Vec<(String, String)>)
    ensures
        r@.len() == 4,
        r@[0].0@ == "room_id"@ && r@[0].1@ == room_id@,
        r@[1].0@ == "host_nick"@ && r@[1].1@ == host_nick@,
        r@[2].0@ == "players"@ && r@[2].1@ == decimal_u8(players),
        r@[3].0@ == "state"@ && r@[3].1@ == lifecycle@,
{
    let mut p = String::new();
    push_decimal(&mut p, players);
    proof {
        assert(p@ =~= decimal_u8(players));
    }
    let mut r: Vec<(String, String)> = Vec::new();
    r.push((String::from_str("room_id"), String::from_str(room_id)));
    r.push((String::from_str("host_nick"), String::from_str(host_nick)));
    r.push((String::from_str("players"), p));
    r.push((String::from_str("state"), String::from_str(lifecycle)));
    r
}

/// Appends a number in decimal.
fn push_decimal_u16(out: &mut String, n: u16)
    ensures
        final(out)@ == old(out)@ + decimal(n as nat),
    decreases n,
{
    let ghost start = out@;
    if n >= 10 {
        push_decimal_u16(out, n / 10);
    }
    out.append(digit_str((n % 10) as u8));
    proof {
        assert(out@ =~= start + decimal(n as nat));
    }
}

/// `host:port` for an IPv4 address given by its octets.
fn socket_string(ip: [u8; 4], port: u16) -> (r: String)
    ensures
        r@ == socket_text(ip, port),
{
    let mut out = String::new();
    push_decimal_u16(&mut out, ip[0] as u16);
    out.append(".");
    push_decimal_u16(&mut out, ip[1] as u16);
    out.append(".");
    push_decimal_u16(&mut out, ip[2] as u16);
    out.append(".");
    push_decimal_u16(&mut out, ip[3] as u16);
    out.append(":");
    push_decimal_u16(&mut out, port);
    proof {
        assert(out@ =~= socket_text(ip, port));
    }
    out
}

// ---------------------------------------------------------------------------
// Resolved services
// ---------------------------------------------------------------------------

/// A service the mDNS daemon resolved, as the values the browser reads.
#[derive(Debug, Clone)]
pub struct ResolvedService {
    pub fullname: String,
    /// One IPv4 address of the service, as its octets, if it has any.
    pub ipv4: Option<[u8; 4]>,
    pub port: u16,
    /// The TXT properties the browser reads, when present.
    pub room_id: Option<String>,
    pub host_nick: Option<String>,
    pub players: Option<String>,
    pub state: Option<String>,
}

/// A room found on the LAN.
#[derive(Debug, Clone)]
pub struct RoomEntry {
    pub fullname: String,
    /// `host:port`.
    pub addr: String,
    pub room_id: String,
    pub host_nick: String,
    pub players: u8,
    pub state: String,
}

pub struct EntryView {
    pub fullname: Seq<char>,
    pub addr: Seq<char>,
    pub room_id: Seq<char>,
    pub host_nick: Seq<char>,
    pub players: u8,
    pub state: Seq<char>,
}

impl View for RoomEntry {
    type V = EntryView;

    open spec fn view(&self) -> EntryView {
        EntryView {
            fullname: self.fullname@,
            addr: self.addr@,
            room_id: self.room_id@,
            host_nick: self.host_nick@,
            players: self.players,
            state: self.state@,
        }
    }
}

/// A property's text, or the default when it is absent.
pub open spec fn text_or(v: Option<String>, default: Seq<char>) -> Seq<char> {
    match v {
        Some(s) => s@,
        None => default,
    }
}

/// The room a resolved service describes: none without an IPv4 address; a
/// missing room id reads as empty, a missing nickname or state as `?`, and
/// a missing or unreadable player count as zero.
pub open spec fn entry_of(s: ResolvedService) -> Option<EntryView> {
    match s.ipv4 {
        None => None,
        Some(ip) => Some(
            EntryView {
                fullname: s.fullname@,
                addr: socket_text(ip, s.port),
                room_id: text_or(s.room_id, ""@),
                host_nick: text_or(s.host_nick, "?"@),
                players: match s.players {
                    Some(p) => match parse_u8(p@) {
                        Some(v) => v,
                        None => 0,
                    },
                    None => 0,
                },
                state: text_or(s.state, "?"@),
            },
        ),
    }
}

/// The property's text, or the default.
fn string_or(v: Option<String>, default: &str) -> (r: String)
    ensures
        r@ == text_or(v, default@),
{
    match v {
        Some(s) => s,
        None => String::from_str(default),
    }
}

/// The room a resolved service describes.
pub fn make_entry(s: ResolvedService) -> (r: Option<RoomEntry>)
    ensures
        match r {
            Some(e) => entry_of(s) == Some(e@),
            None => entry_of(s) is None,
        },
{
    let ghost s0 = s;
    let ip = match s.ipv4 {
        Some(ip) => ip,
        None => {
            return None;
        },
    };
    let players = match &s.players {
        Some(p) => {
            let n = p.unicode_len();
            let v = parse_u8_range(p.as_str(), 0, n);
            proof {
                assert(p@.subrange(0, n as int) =~= p@);
            }
            match v {
                Some(v) => v,
                None => 0,
            }
        },
        None => 0,
    };
    Some(
        RoomEntry {
            fullname: s.fullname,
            addr: socket_string(ip, s.port),
            room_id: string_or(s.room_id, ""),
            host_nick: string_or(s.host_nick, "?"),
            players,
            state: string_or(s.state, "?"),
        },
    )
}

// ---------------------------------------------------------------------------
// The browser's table
// ---------------------------------------------------------------------------

/// No two entries share a fullname.
pub open spec fn unique_names(s: Seq<RoomEntry>) -> bool {
    forall|i: int, j: int| 0 <= i < s.len() && 0 <= j < s.len() && i != j ==> s[i].fullname@ != s[j].fullname@
}

pub open spec fn has_name(s: Seq<RoomEntry>, k: Seq<char>) -> bool {
    exists|i: int| 0 <= i < s.len() && (#[trigger] s[i]).fullname@ == k
}

pub open spec fn name_pos(s: Seq<RoomEntry>, k: Seq<char>) -> int {
    choose|i: int| 0 <= i < s.len() && (#[trigger] s[i]).fullname@ == k
}

/// The rooms the entries describe, by fullname.
pub open spec fn name_map(s: Seq<RoomEntry>) -> Map<Seq<char>, EntryView> {
    Map::new(|k: Seq<char>| has_name(s, k), |k: Seq<char>| s[name_pos(s, k)]@)
}

/// Sorted by host nickname.
pub open spec fn nick_sorted(s: Seq<RoomEntry>) -> bool {
    forall|i: int, j: int| 0 <= i < j < s.len() ==> nick_le(s[i].host_nick@, s[j].host_nick@)
}

proof fn lemma_name_pos(s: Seq<RoomEntry>, i: int)
    requires
        unique_names(s),
        0 <= i < s.len(),
    ensures
        has_name(s, s[i].fullname@),
        name_pos(s, s[i].fullname@) == i,
{
    assert(s[i].fullname@ == s[i].fullname@);
    let p = name_pos(s, s[i].fullname@);
    assert(0 <= p < s.len() && s[p].fullname@ == s[i].fullname@);
}

proof fn lemma_remove_at(s: Seq<RoomEntry>, i: int)
    requires
        unique_names(s),
        nick_sorted(s),
        0 <= i < s.len(),
    ensures
        unique_names(s.remove(i)),
        nick_sorted(s.remove(i)),
        name_map(s.remove(i)) == name_map(s).remove(s[i].fullname@),
{
    let t = s.remove(i);
    let k0 = s[i].fullname@;
    assert forall|a: int| 0 <= a < t.len() implies #[trigger] t[a] == (if a < i { s[a] } else { s[a + 1] }) by {}
    assert forall|a: int, b: int| 0 <= a < t.len() && 0 <= b < t.len() && a != b implies t[a].fullname@ != t[b].fullname@ by {
        let a0 = if a < i { a } else { a + 1 };
        let b0 = if b < i { b } else { b + 1 };
        assert(t[a] == s[a0] && t[b] == s[b0]);
    }
    assert forall|a: int, b: int| 0 <= a < b < t.len() implies nick_le(t[a].host_nick@, t[b].host_nick@) by {
        let a0 = if a < i { a } else { a + 1 };
        let b0 = if b < i { b } else { b + 1 };
        assert(t[a] == s[a0] && t[b] == s[b0]);
    }
    assert forall|k: Seq<char>| #[trigger] has_name(t, k) == (has_name(s, k) && k != k0) by {
        if has_name(t, k) {
            let a = choose|a: int| 0 <= a < t.len() && (#[trigger] t[a]).fullname@ == k;
            let a0 = if a < i { a } else { a + 1 };
            assert(s[a0].fullname@ == k);
            assert(a0 != i);
        }
        if has_name(s, k) && k != k0 {
            let a0 = choose|a: int| 0 <= a < s.len() && (#[trigger] s[a]).fullname@ == k;
            assert(a0 != i);
            let a = if a0 < i { a0 } else { a0 - 1 };
            assert(t[a].fullname@ == k);
        }
    }
    assert forall|k: Seq<char>| #[trigger] has_name(t, k) implies name_map(t)[k] == name_map(s)[k] by {
        let a = choose|a: int| 0 <= a < t.len() && (#[trigger] t[a]).fullname@ == k;
        let a0 = if a < i { a } else { a + 1 };
        lemma_name_pos(t, a);
        lemma_name_pos(s, a0);
    }
    assert(name_map(t) =~= name_map(s).remove(k0));
}

proof fn lemma_insert_at(s: Seq<RoomEntry>, e: RoomEntry, j: int)
    requires
        unique_names(s),
        nick_sorted(s),
        !has_name(s, e.fullname@),
        0 <= j <= s.len(),
        forall|t: int| 0 <= t < j ==> !chars_lt(e.host_nick@, #[trigger] s[t].host_nick@),
        j < s.len() ==> chars_lt(e.host_nick@, s[j].host_nick@),
    ensures
        unique_names(s.insert(j, e)),
        nick_sorted(s.insert(j, e)),
        name_map(s.insert(j, e)) == name_map(s).insert(e.fullname@, e@),
{
    let r = s.insert(j, e);
    let k0 = e.fullname@;
    assert forall|a: int| 0 <= a < r.len() implies #[trigger] r[a] == (if a < j { s[a] } else if a == j { e } else { s[a - 1] }) by {}
    assert forall|a: int, b: int| 0 <= a < r.len() && 0 <= b < r.len() && a != b implies r[a].fullname@ != r[b].fullname@ by {
        if a != j && b != j {
            let a0 = if a < j { a } else { a - 1 };
            let b0 = if b < j { b } else { b - 1 };
            assert(r[a] == s[a0] && r[b] == s[b0]);
        } else if a == j {
            let b0 = if b < j { b } else { b - 1 };
            assert(r[b] == s[b0]);
        } else {
            let a0 = if a < j { a } else { a - 1 };
            assert(r[a] == s[a0]);
        }
    }
    assert forall|a: int, b: int| 0 <= a < b < r.len() implies nick_le(r[a].host_nick@, r[b].host_nick@) by {
        if a < j && b == j {
            lemma_chars_total(e.host_nick@, s[a].host_nick@);
        } else if a == j {
            let y = s[b - 1];
            if b - 1 > j {
                assert(nick_le(s[j].host_nick@, y.host_nick@));
                if chars_lt(s[j].host_nick@, y.host_nick@) {
                    lemma_chars_transitive(e.host_nick@, s[j].host_nick@, y.host_nick@);
                }
            }
        } else {
            let a0 = if a < j { a } else { a - 1 };
            let b0 = if b < j { b } else { b - 1 };
            assert(r[a] == s[a0] && r[b] == s[b0]);
        }
    }
    assert forall|k: Seq<char>| #[trigger] has_name(r, k) == (has_name(s, k) || k == k0) by {
        if has_name(r, k) && k != k0 {
            let a = choose|a: int| 0 <= a < r.len() && (#[trigger] r[a]).fullname@ == k;
            assert(a != j);
            let a0 = if a < j { a } else { a - 1 };
            assert(s[a0].fullname@ == k);
        }
        if has_name(s, k) {
            let a0 = choose|a: int| 0 <= a < s.len() && (#[trigger] s[a]).fullname@ == k;
            let a = if a0 < j { a0 } else { a0 + 1 };
            assert(r[a].fullname@ == k);
        }
        if k == k0 {
            assert(r[j].fullname@ == k);
        }
    }
    assert forall|k: Seq<char>| #[trigger] has_name(r, k) implies name_map(r)[k] == name_map(s).insert(k0, e@)[k] by {
        let a = choose|a: int| 0 <= a < r.len() && (#[trigger] r[a]).fullname@ == k;
        lemma_name_pos(r, a);
        if a != j {
            let a0 = if a < j { a } else { a - 1 };
            lemma_name_pos(s, a0);
        }
    }
    assert(name_map(r) =~= name_map(s).insert(k0, e@));
}

/// A copy of an entry.
fn copy_entry(e: &RoomEntry) -> (r: RoomEntry)
    ensures
        r@ == e@,
{
    RoomEntry {
        fullname: e.fullname.clone(),
        addr: e.addr.clone(),
        room_id: e.room_id.clone(),
        host_nick: e.host_nick.clone(),
        players: e.players,
        state: e.state.clone(),
    }
}

/// The rooms a LAN browser has resolved, one per service fullname, kept in
/// host-nickname order.
#[derive(Debug)]
pub struct DiscoveryRooms {
    pub rooms: Vec<RoomEntry>,
}

impl View for DiscoveryRooms {
    type V = Map<Seq<char>, EntryView>;

    open spec fn view(&self) -> Map<Seq<char>, EntryView> {
        name_map(self.rooms@)
    }
}

impl DiscoveryRooms {
    pub open spec fn wf(&self) -> bool {
        unique_names(self.rooms@) && nick_sorted(self.rooms@)
    }

    /// No rooms yet.
    pub fn new() -> (r: Self)
        ensures
            r.wf(),
            r@ == Map::<Seq<char>, EntryView>::empty(),
    {
        let r = DiscoveryRooms { rooms: Vec::new() };
        proof {
            assert(r@ =~= Map::<Seq<char>, EntryView>::empty());
        }
        r
    }

    /// The entry with this fullname.
    fn find_name(&self, name: &str) -> (r: Option<usize>)
        ensures
            match r {
                Some(i) => i < self.rooms@.len() && self.rooms@[i as int].fullname@ == name@,
                None => !has_name(self.rooms@, name@),
            },
    {
        let mut i: usize = 0;
        while i < self.rooms.len()
            invariant
                i <= self.rooms@.len(),
                forall|j: int| 0 <= j < i ==> self.rooms@[j].fullname@ != name@,
            decreases self.rooms@.len() - i,
        {
            if str_eq(self.rooms[i].fullname.as_str(), name) {
                return Some(i);
            }
            i = i + 1;
        }
        None
    }

    /// The service with this fullname is gone.
    pub fn removed(&mut self, fullname: &str)
        requires
            old(self).wf(),
        ensures
            final(self).wf(),
            final(self)@ == old(self)@.remove(fullname@),
    {
        match self.find_name(fullname) {
            Some(i) => {
                proof {
                    lemma_remove_at(self.rooms@, i as int);
                }
                self.rooms.remove(i);
            },
            None => {
                proof {
                    assert(self@ =~= self@.remove(fullname@));
                }
            },
        }
    }

    /// Adds an entry whose fullname is not in the table, before the first
    /// entry whose nickname sorts after its own.
    fn insert_sorted(&mut self, e: RoomEntry)
        requires
            old(self).wf(),
            !has_name(old(self).rooms@, e.fullname@),
        ensures
            final(self).wf(),
            final(self)@ == old(self)@.insert(e.fullname@, e@),
    {
        let mut j: usize = 0;
        while j < self.rooms.len()
            invariant
                j <= self.rooms@.len(),
                forall|t: int| 0 <= t < j ==> !chars_lt(e.host_nick@, #[trigger] self.rooms@[t].host_nick@),
            ensures
                j <= self.rooms@.len(),
                forall|t: int| 0 <= t < j ==> !chars_lt(e.host_nick@, #[trigger] self.rooms@[t].host_nick@),
                j < self.rooms@.len() ==> chars_lt(e.host_nick@, self.rooms@[j as int].host_nick@),
            decreases self.rooms@.len() - j,
        {
            if nick_lt(e.host_nick.as_str(), self.rooms[j].host_nick.as_str()) {
                break;
            }
            j = j + 1;
        }
        proof {
            lemma_insert_at(self.rooms@, e, j as int);
        }
        self.rooms.insert(j, e);
    }

    /// A service was resolved: the room it describes replaces any room of the
    /// same fullname; a service without an IPv4 address changes nothing.
    pub fn resolved(&mut self, s: ResolvedService)
        requires
            old(self).wf(),
        ensures
            final(self).wf(),
            final(self)@ == match entry_of(s) {
                Some(ev) => old(self)@.insert(ev.fullname, ev),
                None => old(self)@,
            },
    {
        let ghost s0 = s;
        match make_entry(s) {
            Some(e) => {
                let ghost before = self@;
                self.removed(e.fullname.as_str());
                proof {
                    assert(!has_name(self.rooms@, e.fullname@)) by {
                        if has_name(self.rooms@, e.fullname@) {
                            assert(self@.contains_key(e.fullname@));
                        }
                    }
                }
                self.insert_sorted(e);
                proof {
                    assert(self@ =~= before.insert(e@.fullname, e@));
                }
            },
            None => {},
        }
    }

    /// The rooms, sorted by host nickname (rooms with equal nicknames in no
    /// promised order).
    pub fn rooms(&self) -> (r: Vec<RoomEntry>)
        requires
            self.wf(),
        ensures
            r@.len() == self.rooms@.len(),
            forall|i: int, j: int| 0 <= i < j < r@.len() ==> nick_le(r@[i].host_nick@, r@[j].host_nick@),
            forall|i: int, j: int| 0 <= i < j < r@.len() ==> r@[i].fullname@ != r@[j].fullname@,
            forall|i: int| 0 <= i < r@.len() ==> self@.contains_key((#[trigger] r@[i]).fullname@) && self@[r@[i].fullname@] == r@[i]@,
            forall|k: Seq<char>| self@.contains_key(k) ==> exists|i: int| 0 <= i < r@.len() && (#[trigger] r@[i]).fullname@ == k,
    {
        let mut out: Vec<RoomEntry> = Vec::new();
        let mut i: usize = 0;
        while i < self.rooms.len()
            invariant
                i <= self.rooms@.len(),
                out@.len() == i,
                forall|t: int| 0 <= t < i ==> (#[trigger] out@[t])@ == self.rooms@[t]@,
            decreases self.rooms@.len() - i,
        {
            out.push(copy_entry(&self.rooms[i]));
            i = i + 1;
        }
        proof {
            assert forall|a: int, b: int| 0 <= a < b < out@.len() implies nick_le(out@[a].host_nick@, out@[b].host_nick@) by {
                assert(out@[a]@ == self.rooms@[a]@ && out@[b]@ == self.rooms@[b]@);
            }
            assert forall|a: int, b: int| 0 <= a < b < out@.len() implies out@[a].fullname@ != out@[b].fullname@ by {
                assert(out@[a]@ == self.rooms@[a]@ && out@[b]@ == self.rooms@[b]@);
            }
            assert forall|a: int| 0 <= a < out@.len() implies self@.contains_key((#[trigger] out@[a]).fullname@) && self@[out@[a].fullname@] == out@[a]@ by {
                assert(out@[a]@ == self.rooms@[a]@);
                lemma_name_pos(self.rooms@, a);
            }
            assert forall|k: Seq<char>| self@.contains_key(k) implies exists|a: int| 0 <= a < out@.len() && (#[trigger] out@[a]).fullname@ == k by {
                let a = choose|a: int| 0 <= a < self.rooms@.len() && (#[trigger] self.rooms@[a]).fullname@ == k;
                assert(out@[a]@ == self.rooms@[a]@);
            }
        }
        out
    }
}

} // verus!
