//! Room metadata in the identify agent version.
//!
//! On the LAN path a host advertises its room in the agent version of the
//! identify protocol: the prefix [`AGENT_PREFIX`] followed by
//! `host_nick=..;players=..;lifecycle=..;room_id=..`. This module encodes and
//! parses that string.

use vstd::prelude::*;
use vstd::string::{StrSliceExecFns, StringExecFns};
use crate::net::text::range_eq;
use super::behaviour::AGENT_PREFIX;
use super::mode::RoomMode;

verus! {

/// A room as the lobby knows it.
#[derive(Debug, Clone)]
pub struct RoomMetadata {
    pub host_nick: String,
    pub players: u8,
    /// `lobby`, `in_game`, ...
    pub state: String,
    pub room_id: String,
    /// Set from lobby announcements; 0 (never stale) on the LAN path.
    pub last_seen_unix_ms: i64,
    /// The LAN path carries no mode: `Standard`.
    pub mode: RoomMode,
}

/// The mathematical value of [`RoomMetadata`].
pub struct MetadataView {
    pub host_nick: Seq<char>,
    pub players: u8,
    pub state: Seq<char>,
    pub room_id: Seq<char>,
    pub last_seen_unix_ms: i64,
    pub mode: RoomMode,
}

impl View for RoomMetadata {
    type V = MetadataView;

    open spec fn view(&self) -> MetadataView {
        MetadataView {
            host_nick: self.host_nick@,
            players: self.players,
            state: self.state@,
            room_id: self.room_id@,
            last_seen_unix_ms: self.last_seen_unix_ms,
            mode: self.mode,
        }
    }
}

/// Empty strings, no players, never stale, `Standard`.
pub open spec fn default_metadata() -> MetadataView {
    MetadataView {
        host_nick: Seq::empty(),
        players: 0,
        state: Seq::empty(),
        room_id: Seq::empty(),
        last_seen_unix_ms: 0,
        mode: RoomMode::Standard,
    }
}

impl Default for RoomMetadata {
    fn default() -> (r: Self)
        ensures
            r@ == default_metadata(),
    {
        RoomMetadata {
            host_nick: String::new(),
            players: 0,
            state: String::new(),
            room_id: String::new(),
            last_seen_unix_ms: 0,
            mode: RoomMode::Standard,
        }
    }
}

// ---------------------------------------------------------------------------
// The format
// ---------------------------------------------------------------------------

/// The pieces of `s` between separators, as `str::split` gives them: one more
/// piece than there are separators, empty pieces included.
pub open spec fn split_on(s: Seq<char>, sep: char) -> Seq<Seq<char>>
    decreases s.len(),
{
    if s.len() == 0 {
        seq![Seq::empty()]
    } else {
        let r = split_on(s.drop_last(), sep);
        if s.last() == sep {
            r.push(Seq::empty())
        } else {
            r.update(r.len() - 1, r.last().push(s.last()))
        }
    }
}

/// `j` is the position of the first `=` in `kv`.
pub open spec fn first_eq_at(kv: Seq<char>, j: int) -> bool {
    0 <= j < kv.len() && kv[j] == '=' && forall|t: int| 0 <= t < j ==> kv[t] != '='
}

pub open spec fn is_digit(c: char) -> bool {
    '0' as int <= c as int <= '9' as int
}

/// The value of a string of decimal digits.
pub open spec fn digits_value(d: Seq<char>) -> int
    decreases d.len(),
{
    if d.len() == 0 {
        0
    } else {
        digits_value(d.drop_last()) * 10 + (d.last() as int - '0' as int)
    }
}

/// `u8::from_str`: an optional `+`, then one or more decimal digits whose value
/// fits in a byte.
/// The digits of an unsigned number: the string without a leading `+`.
pub open spec fn unsigned_digits(s: Seq<char>) -> Seq<char> {
    if s.len() > 0 && s[0] == '+' { s.drop_first() } else { s }
}

pub open spec fn parse_u8(s: Seq<char>) -> Option<u8> {
    let d = unsigned_digits(s);
    if d.len() > 0 && (forall|i: int| 0 <= i < d.len() ==> is_digit(#[trigger] d[i]))
        && digits_value(d) <= 255 {
        Some(digits_value(d) as u8)
    } else {
        None
    }
}

/// The field that `key` names, set to `v`. Unknown keys change nothing;
/// `lifecycle` and the older `state` name the same field; a `players` value
/// that does not parse reads as 0.
pub open spec fn set_field(md: MetadataView, k: Seq<char>, v: Seq<char>) -> MetadataView {
    if k == "host_nick"@ {
        MetadataView { host_nick: v, ..md }
    } else if k == "players"@ {
        MetadataView {
            players: match parse_u8(v) {
                Some(p) => p,
                None => 0,
            },
            ..md
        }
    } else if k == "lifecycle"@ || k == "state"@ {
        MetadataView { state: v, ..md }
    } else if k == "room_id"@ {
        MetadataView { room_id: v, ..md }
    } else {
        md
    }
}

/// One `key=value` piece applied to the metadata; the key ends at the first
/// `=`. A piece without `=` changes nothing.
pub open spec fn apply_kv(md: MetadataView, kv: Seq<char>) -> MetadataView {
    if exists|j: int| first_eq_at(kv, j) {
        let j = choose|j: int| first_eq_at(kv, j);
        set_field(md, kv.take(j), kv.skip(j + 1))
    } else {
        md
    }
}

/// The pieces applied left to right.
pub open spec fn fold_kvs(md: MetadataView, parts: Seq<Seq<char>>) -> MetadataView
    decreases parts.len(),
{
    if parts.len() == 0 {
        md
    } else {
        apply_kv(fold_kvs(md, parts.drop_last()), parts.last())
    }
}

/// The metadata an agent version carries: `None` without the prefix,
/// otherwise the `;`-separated pieces after it applied to the default.
pub open spec fn metadata_of(agent: Seq<char>) -> Option<MetadataView> {
    let p = AGENT_PREFIX@;
    if p.len() <= agent.len() && agent.take(p.len() as int) == p {
        Some(fold_kvs(default_metadata(), split_on(agent.skip(p.len() as int), ';')))
    } else {
        None
    }
}

/// `;` and `=` become `_`, so that a value cannot break the format.
pub open spec fn sanitize(s: Seq<char>) -> Seq<char> {
    s.map_values(|c: char| if c == ';' || c == '=' { '_' } else { c })
}

pub open spec fn digit_char(d: int) -> char {
    if d == 0 { '0' }
    else if d == 1 { '1' }
    else if d == 2 { '2' }
    else if d == 3 { '3' }
    else if d == 4 { '4' }
    else if d == 5 { '5' }
    else if d == 6 { '6' }
    else if d == 7 { '7' }
    else if d == 8 { '8' }
    else { '9' }
}

/// A byte in decimal, without leading zeros.
pub open spec fn decimal_u8(p: u8) -> Seq<char> {
    if p < 10 {
        seq![digit_char(p as int)]
    } else if p < 100 {
        seq![digit_char(p as int / 10), digit_char(p as int % 10)]
    } else {
        seq![digit_char(p as int / 100), digit_char((p as int / 10) % 10), digit_char(p as int % 10)]
    }
}

/// The encoded metadata (without the prefix).
pub open spec fn encoded_metadata(host_nick: Seq<char>, players: u8, lifecycle: Seq<char>, room_id: Seq<char>) -> Seq<char> {
    "host_nick="@ + sanitize(host_nick) + ";players="@ + decimal_u8(players) + ";lifecycle="@
        + sanitize(lifecycle) + ";room_id="@ + sanitize(room_id)
}

// ---------------------------------------------------------------------------
// Parsing
// ---------------------------------------------------------------------------

/// Values of digit strings never decrease as digits are appended.
proof fn lemma_digits_prefix(d: Seq<char>, k: int)
    requires
        0 <= k <= d.len(),
        forall|i: int| 0 <= i < d.len() ==> is_digit(#[trigger] d[i]),
    ensures
        0 <= digits_value(d.take(k)) <= digits_value(d),
    decreases d.len(),
{
    if d.len() > 0 {
        let dl = d.drop_last();
        assert forall|i: int| 0 <= i < dl.len() implies is_digit(#[trigger] dl[i]) by {
            assert(dl[i] == d[i]);
        }
        if k == d.len() {
            assert(d.take(k) =~= d);
            lemma_digits_prefix(dl, dl.len() as int);
            assert(dl.take(dl.len() as int) =~= dl);
        } else {
            lemma_digits_prefix(dl, k);
            assert(dl.take(k) =~= d.take(k));
            lemma_digits_prefix(dl, dl.len() as int);
            assert(dl.take(dl.len() as int) =~= dl);
            assert(is_digit(d[d.len() - 1]));
        }
    }
}

/// The first position in `s[from..to]` holding `c`, or `to`.
fn find_char(s: &str, from: usize, to: usize, c: char) -> (r: usize)
    requires
        from <= to <= s@.len(),
    ensures
        from <= r <= to,
        forall|t: int| from <= t < r ==> s@[t] != c,
        r < to ==> s@[r as int] == c,
{
    let mut i = from;
    while i < to
        invariant
            from <= i <= to <= s@.len(),
            forall|t: int| from <= t < i ==> s@[t] != c,
        decreases to - i,
    {
        if s.get_char(i) == c {
            return i;
        }
        i = i + 1;
    }
    i
}

/// [`parse_u8`] of `s[from..to]`.
pub(crate) fn parse_u8_range(s: &str, from: usize, to: usize) -> (r: Option<u8>)
    requires
        from <= to <= s@.len(),
    ensures
        r == parse_u8(s@.subrange(from as int, to as int)),
{
    let ghost w = s@.subrange(from as int, to as int);
    let mut start = from;
    if from < to && s.get_char(from) == '+' {
        start = from + 1;
    }
    let ghost d = s@.subrange(start as int, to as int);
    proof {
        if w.len() > 0 && w[0] == '+' {
            assert(w.drop_first() =~= d);
        } else {
            assert(w =~= d);
        }
        assert(unsigned_digits(w) == d);
    }
    if start == to {
        return None;
    }
    let mut i = start;
    let mut acc: u32 = 0;
    while i < to
        invariant
            from <= start < to <= s@.len(),
            d == s@.subrange(start as int, to as int),
            w == s@.subrange(from as int, to as int),
            unsigned_digits(w) == d,
            start <= i <= to,
            acc == digits_value(d.take(i - start)),
            acc <= 255,
            forall|t: int| 0 <= t < i - start ==> is_digit(#[trigger] d[t]),
        decreases to - i,
    {
        let c = s.get_char(i);
        if !(c >= '0' && c <= '9') {
            proof {
                assert(d[i - start] == c);
                assert(!is_digit(d[i - start]));
                assert(!(forall|t: int| 0 <= t < d.len() ==> is_digit(#[trigger] d[t])));
                assert(parse_u8(w) is None);
            }
            return None;
        }
        let dv = (c as u32) - ('0' as u32);
        proof {
            assert(d.take(i - start + 1).drop_last() =~= d.take(i - start));
            assert(d.take(i - start + 1).last() == c);
        }
        acc = acc * 10 + dv;
        if acc > 255 {
            proof {
                if forall|t: int| 0 <= t < d.len() ==> is_digit(#[trigger] d[t]) {
                    lemma_digits_prefix(d, i - start + 1);
                    assert(digits_value(d) > 255);
                }
                assert(parse_u8(w) is None);
            }
            return None;
        }
        i = i + 1;
    }
    proof {
        assert(d.take(i - start) =~= d);
    }
    Some(acc as u8)
}

/// Applies the piece `s[from..to]` to the metadata.
fn apply_segment(md: &mut RoomMetadata, s: &str, from: usize, to: usize)
    requires
        from <= to <= s@.len(),
    ensures
        final(md)@ == apply_kv(old(md)@, s@.subrange(from as int, to as int)),
{
    let ghost kv = s@.subrange(from as int, to as int);
    let j = find_char(s, from, to, '=');
    if j == to {
        proof {
            assert forall|jj: int| !first_eq_at(kv, jj) by {
                if 0 <= jj < kv.len() {
                    assert(kv[jj] == s@[from + jj]);
                }
            }
        }
        return;
    }
    let ghost jj: int = j - from;
    proof {
        assert(first_eq_at(kv, jj));
        assert forall|j2: int| first_eq_at(kv, j2) implies j2 == jj by {
            if j2 < jj {
                assert(kv[j2] == s@[from + j2]);
            } else if j2 > jj {
                assert(kv[jj] == '=');
            }
        }
        assert(kv.take(jj) =~= s@.subrange(from as int, j as int));
        assert(kv.skip(jj + 1) =~= s@.subrange(j + 1, to as int));
    }
    if range_eq(s, from, j, "host_nick") {
        md.host_nick = String::from_str(s.substring_char(j + 1, to));
    } else if range_eq(s, from, j, "players") {
        md.players = match parse_u8_range(s, j + 1, to) {
            Some(p) => p,
            None => 0,
        };
    } else if range_eq(s, from, j, "lifecycle") || range_eq(s, from, j, "state") {
        md.state = String::from_str(s.substring_char(j + 1, to));
    } else if range_eq(s, from, j, "room_id") {
        md.room_id = String::from_str(s.substring_char(j + 1, to));
    }
}

/// Reads the room metadata from an identify agent version; `None` when the
/// agent is not ours.
pub fn parse_metadata(agent_version: &str) -> (r: Option<RoomMetadata>)
    ensures
        match r {
            Some(m) => metadata_of(agent_version@) == Some(m@),
            None => metadata_of(agent_version@) is None,
        },
{
    let n = agent_version.unicode_len();
    let plen = AGENT_PREFIX.unicode_len();
    if plen > n {
        return None;
    }
    if !range_eq(agent_version, 0, plen, AGENT_PREFIX) {
        proof {
            assert(agent_version@.take(plen as int) =~= agent_version@.subrange(0, plen as int));
        }
        return None;
    }
    proof {
        assert(agent_version@.take(plen as int) =~= agent_version@.subrange(0, plen as int));
    }
    let ghost s = agent_version@;
    let mut md = RoomMetadata::default();
    let ghost mut done: Seq<Seq<char>> = Seq::empty();
    let mut seg_start = plen;
    let mut i = plen;
    proof {
        assert(s.subrange(plen as int, plen as int) =~= Seq::<char>::empty());
        assert(split_on(Seq::<char>::empty(), ';') == seq![Seq::<char>::empty()]);
        assert(seq![Seq::<char>::empty()] =~= done.push(s.subrange(seg_start as int, i as int)));
    }
    while i < n
        invariant
            s == agent_version@,
            n == s.len(),
            plen <= seg_start <= i <= n,
            split_on(s.subrange(plen as int, i as int), ';') == done.push(s.subrange(seg_start as int, i as int)),
            md@ == fold_kvs(default_metadata(), done),
        decreases n - i,
    {
        let c = agent_version.get_char(i);
        let ghost pre = s.subrange(plen as int, i as int);
        proof {
            let nxt = s.subrange(plen as int, i + 1);
            assert(nxt.drop_last() =~= pre);
            assert(nxt.last() == c);
        }
        if c == ';' {
            apply_segment(&mut md, agent_version, seg_start, i);
            proof {
                let seg = s.subrange(seg_start as int, i as int);
                assert(done.push(seg).drop_last() =~= done);
                done = done.push(seg);
                assert(s.subrange((i + 1) as int, (i + 1) as int) =~= Seq::<char>::empty());
            }
            seg_start = i + 1;
        } else {
            proof {
                let seg = s.subrange(seg_start as int, i as int);
                assert(s.subrange(seg_start as int, i + 1) =~= seg.push(c));
                assert(done.push(seg).update(done.len() as int, seg.push(c)) =~= done.push(seg.push(c)));
            }
        }
        i = i + 1;
    }
    apply_segment(&mut md, agent_version, seg_start, n);
    proof {
        let seg = s.subrange(seg_start as int, n as int);
        assert(done.push(seg).drop_last() =~= done);
        assert(s.skip(plen as int) =~= s.subrange(plen as int, n as int));
    }
    Some(md)
}

// ---------------------------------------------------------------------------
// Encoding
// ---------------------------------------------------------------------------

/// Appends `s` with `;` and `=` replaced by `_`.
fn push_sanitized(out: &mut String, s: &str)
    ensures
        final(out)@ == old(out)@ + sanitize(s@),
{
    let ghost start = out@;
    let n = s.unicode_len();
    let mut i: usize = 0;
    proof {
        reveal_strlit("_");
        assert(sanitize(s@.take(0)) =~= Seq::<char>::empty());
        assert(out@ =~= start + sanitize(s@.take(0)));
    }
    while i < n
        invariant
            n == s@.len(),
            i <= n,
            out@ == start + sanitize(s@.take(i as int)),
        decreases n - i,
    {
        let c = s.get_char(i);
        proof {
            reveal_strlit("_");
            assert(sanitize(s@.take(i + 1)) =~= sanitize(s@.take(i as int)).push(
                if c == ';' || c == '=' { '_' } else { c },
            ));
        }
        if c == ';' || c == '=' {
            out.append("_");
        } else {
            let one = s.substring_char(i, i + 1);
            proof {
                assert(one@ =~= seq![c]);
            }
            out.append(one);
        }
        proof {
            assert(out@ =~= start + sanitize(s@.take(i + 1)));
        }
        i = i + 1;
    }
    proof {
        assert(s@.take(n as int) =~= s@);
    }
}

/// The decimal digit `d` as a one-char string.
pub(crate) fn digit_str(d: u8) -> (r: &'static str)
    requires
        d < 10,
    ensures
        r@ == seq![digit_char(d as int)],
{
    match d {
        0 => { proof { reveal_strlit("0"); } "0" },
        1 => { proof { reveal_strlit("1"); } "1" },
        2 => { proof { reveal_strlit("2"); } "2" },
        3 => { proof { reveal_strlit("3"); } "3" },
        4 => { proof { reveal_strlit("4"); } "4" },
        5 => { proof { reveal_strlit("5"); } "5" },
        6 => { proof { reveal_strlit("6"); } "6" },
        7 => { proof { reveal_strlit("7"); } "7" },
        8 => { proof { reveal_strlit("8"); } "8" },
        _ => { proof { reveal_strlit("9"); } "9" },
    }
}

/// Appends a byte in decimal.
pub(crate) fn push_decimal(out: &mut String, p: u8)
    ensures
        final(out)@ == old(out)@ + decimal_u8(p),
{
    let ghost start = out@;
    if p >= 100 {
        out.append(digit_str(p / 100));
    }
    if p >= 10 {
        out.append(digit_str((p / 10) % 10));
    }
    out.append(digit_str(p % 10));
    proof {
        if p >= 100 {
            assert((p as int / 10) % 10 == ((p / 10) % 10) as int);
        }
        assert(out@ =~= start + decimal_u8(p));
    }
}

/// The identify agent version (without the prefix) that carries a room's
/// metadata.
pub fn encode_metadata(host_nick: &str, players: u8, lifecycle: &str, room_id: &str) -> (r: String)
    ensures
        r@ == encoded_metadata(host_nick@, players, lifecycle@, room_id@),
{
    let mut out = String::from_str("host_nick=");
    push_sanitized(&mut out, host_nick);
    out.append(";players=");
    push_decimal(&mut out, players);
    out.append(";lifecycle=");
    push_sanitized(&mut out, lifecycle);
    out.append(";room_id=");
    push_sanitized(&mut out, room_id);
    out
}

// ---------------------------------------------------------------------------
// Reading back what was encoded
// ---------------------------------------------------------------------------

proof fn lemma_split_nonempty(s: Seq<char>, sep: char)
    ensures
        split_on(s, sep).len() >= 1,
    decreases s.len(),
{
    if s.len() > 0 {
        lemma_split_nonempty(s.drop_last(), sep);
    }
}

/// A string without the separator is a single piece.
proof fn lemma_split_no_sep(x: Seq<char>, sep: char)
    requires
        forall|i: int| 0 <= i < x.len() ==> x[i] != sep,
    ensures
        split_on(x, sep) == seq![x],
    decreases x.len(),
{
    if x.len() > 0 {
        let y = x.drop_last();
        lemma_split_no_sep(y, sep);
        assert(x.last() != sep);
        assert(y.push(x.last()) =~= x);
        let r = split_on(y, sep);
        assert(r.len() == 1 && r.last() == y);
        assert(r.update(0, y.push(x.last())) =~= seq![x]);
    } else {
        assert(x =~= Seq::<char>::empty());
    }
}

/// Splitting at one separator splits the two sides independently.
proof fn lemma_split_concat(a: Seq<char>, b: Seq<char>, sep: char)
    ensures
        split_on(a + seq![sep] + b, sep) == split_on(a, sep) + split_on(b, sep),
    decreases b.len(),
{
    let whole = a + seq![sep] + b;
    if b.len() == 0 {
        assert(whole.drop_last() =~= a);
        assert(split_on(b, sep) =~= seq![Seq::<char>::empty()]);
        assert(split_on(a, sep).push(Seq::empty()) =~= split_on(a, sep) + seq![Seq::<char>::empty()]);
    } else {
        let b1 = b.drop_last();
        lemma_split_concat(a, b1, sep);
        lemma_split_nonempty(b1, sep);
        lemma_split_nonempty(a, sep);
        assert(whole.drop_last() =~= a + seq![sep] + b1);
        assert(whole.last() == b.last());
        let sa = split_on(a, sep);
        let sb = split_on(b1, sep);
        if b.last() == sep {
            assert((sa + sb).push(Seq::empty()) =~= sa + sb.push(Seq::empty()));
        } else {
            let r = sa + sb;
            assert(r.last() == sb.last());
            assert(r.update(r.len() - 1, r.last().push(b.last())) =~= sa + sb.update(
                sb.len() - 1,
                sb.last().push(b.last()),
            ));
        }
    }
}

/// The first `=` found at `j` is the one `apply_kv` chooses.
proof fn lemma_first_eq_unique(kv: Seq<char>, j: int)
    requires
        first_eq_at(kv, j),
    ensures
        (choose|j2: int| first_eq_at(kv, j2)) == j,
{
    let c = choose|j2: int| first_eq_at(kv, j2);
    assert(first_eq_at(kv, c));
    if c < j {
        assert(kv[c] == '=');
    } else if c > j {
        assert(kv[j] == '=');
    }
}

proof fn lemma_digit_char(d: int)
    requires
        0 <= d < 10,
    ensures
        is_digit(digit_char(d)),
        digit_char(d) as int - '0' as int == d,
{
}

/// A byte's decimal form parses back to the byte.
proof fn lemma_parse_decimal(p: u8)
    ensures
        parse_u8(decimal_u8(p)) == Some(p),
{
    let d = decimal_u8(p);
    let x = p as int;
    if p < 10 {
        lemma_digit_char(x);
        assert(d.last() == digit_char(x));
        assert(d.drop_last() =~= Seq::<char>::empty());
        assert(digits_value(d.drop_last()) == 0);
        assert(digits_value(d) == x);
    } else if p < 100 {
        lemma_digit_char(x / 10);
        lemma_digit_char(x % 10);
        let d1 = d.drop_last();
        assert(d1 =~= seq![digit_char(x / 10)]);
        assert(d1.drop_last() =~= Seq::<char>::empty());
        assert(digits_value(d1.drop_last()) == 0);
        assert(digits_value(d1) == x / 10);
        assert(digits_value(d) == x);
    } else {
        lemma_digit_char(x / 100);
        lemma_digit_char((x / 10) % 10);
        lemma_digit_char(x % 10);
        let d1 = d.drop_last();
        let d2 = d1.drop_last();
        assert(d1 =~= seq![digit_char(x / 100), digit_char((x / 10) % 10)]);
        assert(d2 =~= seq![digit_char(x / 100)]);
        assert(d2.drop_last() =~= Seq::<char>::empty());
        assert(digits_value(d2.drop_last()) == 0);
        assert(digits_value(d2) == x / 100);
        assert(digits_value(d1) == (x / 100) * 10 + (x / 10) % 10);
        assert(digits_value(d) == x);
    }
    assert(unsigned_digits(d) == d);
    assert(forall|i: int| 0 <= i < d.len() ==> is_digit(#[trigger] d[i]));
}

proof fn lemma_sanitized_clean(s: Seq<char>)
    ensures
        forall|i: int| 0 <= i < sanitize(s).len() ==> sanitize(s)[i] != ';' && sanitize(s)[i] != '=',
{
}

/// A `key=value` piece whose key holds no `=` sets the field the key names.
proof fn lemma_apply_piece(md: MetadataView, k: Seq<char>, v: Seq<char>)
    requires
        forall|i: int| 0 <= i < k.len() ==> k[i] != '=',
    ensures
        apply_kv(md, k + seq!['='] + v) == set_field(md, k, v),
{
    let kv = k + seq!['='] + v;
    let j = k.len() as int;
    assert(kv[j] == '=');
    assert forall|t: int| 0 <= t < j implies kv[t] != '=' by {
        assert(kv[t] == k[t]);
    }
    assert(first_eq_at(kv, j));
    lemma_first_eq_unique(kv, j);
    assert(kv.take(j) =~= k);
    assert(kv.skip(j + 1) =~= v);
}

/// The encoded string is four `;`-separated `key=value` pieces.
proof fn lemma_encoded_pieces(sh: Seq<char>, dp: Seq<char>, sl: Seq<char>, sr: Seq<char>)
    requires
        forall|i: int| 0 <= i < sh.len() ==> sh[i] != ';',
        forall|i: int| 0 <= i < dp.len() ==> dp[i] != ';',
        forall|i: int| 0 <= i < sl.len() ==> sl[i] != ';',
        forall|i: int| 0 <= i < sr.len() ==> sr[i] != ';',
    ensures
        split_on(
            "host_nick="@ + sh + ";players="@ + dp + ";lifecycle="@ + sl + ";room_id="@ + sr,
            ';',
        ) == seq![
            "host_nick"@ + seq!['='] + sh,
            "players"@ + seq!['='] + dp,
            "lifecycle"@ + seq!['='] + sl,
            "room_id"@ + seq!['='] + sr,
        ],
{
    reveal_strlit("host_nick=");
    reveal_strlit(";players=");
    reveal_strlit(";lifecycle=");
    reveal_strlit(";room_id=");
    reveal_strlit("host_nick");
    reveal_strlit("players");
    reveal_strlit("lifecycle");
    reveal_strlit("room_id");
    let seg1 = "host_nick"@ + seq!['='] + sh;
    let seg2 = "players"@ + seq!['='] + dp;
    let seg3 = "lifecycle"@ + seq!['='] + sl;
    let seg4 = "room_id"@ + seq!['='] + sr;
    let enc = "host_nick="@ + sh + ";players="@ + dp + ";lifecycle="@ + sl + ";room_id="@ + sr;
    assert(enc =~= ((seg1 + seq![';'] + seg2) + seq![';'] + seg3) + seq![';'] + seg4);
    assert forall|i: int| 0 <= i < seg1.len() implies seg1[i] != ';' by {
        if i >= 10 {
            assert(seg1[i] == sh[i - 10]);
        }
    }
    assert forall|i: int| 0 <= i < seg2.len() implies seg2[i] != ';' by {
        if i >= 8 {
            assert(seg2[i] == dp[i - 8]);
        }
    }
    assert forall|i: int| 0 <= i < seg3.len() implies seg3[i] != ';' by {
        if i >= 10 {
            assert(seg3[i] == sl[i - 10]);
        }
    }
    assert forall|i: int| 0 <= i < seg4.len() implies seg4[i] != ';' by {
        if i >= 8 {
            assert(seg4[i] == sr[i - 8]);
        }
    }
    lemma_split_no_sep(seg1, ';');
    lemma_split_no_sep(seg2, ';');
    lemma_split_no_sep(seg3, ';');
    lemma_split_no_sep(seg4, ';');
    lemma_split_concat(seg1, seg2, ';');
    lemma_split_concat(seg1 + seq![';'] + seg2, seg3, ';');
    lemma_split_concat((seg1 + seq![';'] + seg2) + seq![';'] + seg3, seg4, ';');
    assert(split_on(enc, ';') =~= seq![seg1, seg2, seg3, seg4]);
}

/// The four keys set four different fields.
proof fn lemma_set_fields(sh: Seq<char>, p: u8, sl: Seq<char>, sr: Seq<char>)
    ensures
        set_field(
            set_field(
                set_field(set_field(default_metadata(), "host_nick"@, sh), "players"@, decimal_u8(p)),
                "lifecycle"@,
                sl,
            ),
            "room_id"@,
            sr,
        ) == (MetadataView {
            host_nick: sh,
            players: p,
            state: sl,
            room_id: sr,
            last_seen_unix_ms: 0,
            mode: RoomMode::Standard,
        }),
{
    reveal_strlit("host_nick");
    reveal_strlit("players");
    reveal_strlit("lifecycle");
    reveal_strlit("state");
    reveal_strlit("room_id");
    lemma_parse_decimal(p);
    assert("players"@.len() != "host_nick"@.len());
    assert("lifecycle"@[0] != "host_nick"@[0]);
    assert("lifecycle"@.len() != "players"@.len());
    assert("lifecycle"@.len() != "state"@.len());
    assert("room_id"@.len() != "host_nick"@.len());
    assert("room_id"@[0] != "players"@[0]);
    assert("room_id"@.len() != "lifecycle"@.len());
    assert("room_id"@.len() != "state"@.len());
}

/// Encoding a room and reading it back gives the room, with `;` and `=` in
/// its strings turned into `_`; fields the encoding does not carry keep their
/// defaults.
pub proof fn law_metadata_round_trip(host_nick: Seq<char>, players: u8, lifecycle: Seq<char>, room_id: Seq<char>)
    ensures
        metadata_of(AGENT_PREFIX@ + encoded_metadata(host_nick, players, lifecycle, room_id)) == Some(
            MetadataView {
                host_nick: sanitize(host_nick),
                players,
                state: sanitize(lifecycle),
                room_id: sanitize(room_id),
                last_seen_unix_ms: 0,
                mode: RoomMode::Standard,
            },
        ),
{
    reveal_strlit("tui-majo/");
    let pre = AGENT_PREFIX@;
    let enc = encoded_metadata(host_nick, players, lifecycle, room_id);
    let agent = pre + enc;
    assert(agent.take(pre.len() as int) =~= pre);
    assert(agent.skip(pre.len() as int) =~= enc);
    let sh = sanitize(host_nick);
    let dp = decimal_u8(players);
    let sl = sanitize(lifecycle);
    let sr = sanitize(room_id);
    lemma_sanitized_clean(host_nick);
    lemma_sanitized_clean(lifecycle);
    lemma_sanitized_clean(room_id);
    lemma_parse_decimal(players);
    assert forall|i: int| 0 <= i < dp.len() implies dp[i] != ';' && dp[i] != '=' by {
        assert(is_digit(dp[i]));
    }
    lemma_encoded_pieces(sh, dp, sl, sr);
    reveal_strlit("host_nick");
    reveal_strlit("players");
    reveal_strlit("lifecycle");
    reveal_strlit("room_id");
    let seg1 = "host_nick"@ + seq!['='] + sh;
    let seg2 = "players"@ + seq!['='] + dp;
    let seg3 = "lifecycle"@ + seq!['='] + sl;
    let seg4 = "room_id"@ + seq!['='] + sr;
    let parts = split_on(enc, ';');
    let m0 = default_metadata();
    let m1 = set_field(m0, "host_nick"@, sh);
    let m2 = set_field(m1, "players"@, dp);
    let m3 = set_field(m2, "lifecycle"@, sl);
    let m4 = set_field(m3, "room_id"@, sr);
    lemma_apply_piece(m0, "host_nick"@, sh);
    lemma_apply_piece(m1, "players"@, dp);
    lemma_apply_piece(m2, "lifecycle"@, sl);
    lemma_apply_piece(m3, "room_id"@, sr);
    lemma_set_fields(sh, players, sl, sr);
    let q1 = seq![seg1];
    let q2 = seq![seg1, seg2];
    let q3 = seq![seg1, seg2, seg3];
    let q4 = seq![seg1, seg2, seg3, seg4];
    assert(q1.drop_last() =~= Seq::<Seq<char>>::empty());
    assert(q2.drop_last() =~= q1);
    assert(q3.drop_last() =~= q2);
    assert(q4.drop_last() =~= q3);
    assert(fold_kvs(m0, Seq::<Seq<char>>::empty()) == m0);
    assert(fold_kvs(m0, q1) == m1);
    assert(fold_kvs(m0, q2) == m2);
    assert(fold_kvs(m0, q3) == m3);
    assert(parts == q4);
    assert(fold_kvs(m0, parts) == m4);
}
} // verus!
