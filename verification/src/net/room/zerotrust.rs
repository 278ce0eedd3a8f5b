//! Starting a zero-trust hand: the session label all four players derive
//! independently.

use vstd::prelude::*;
use sha2::Digest;
use vstd::string::StringSliceAdditionalSpecFns;
use crate::mental_poker::point::{copy_bytes, views};

verus! {

/// SHA-256 of a byte string.
pub uninterp spec fn sha256_of(data: Seq<u8>) -> Seq<u8>;

/// `sha2::Sha256::digest`: the 32-byte SHA-256 digest of `data`, which
/// depends on `data` alone.
#[verifier::external_body]
fn sha256(data: &[u8]) -> (r: Vec<u8>)
    ensures
        r@ == sha256_of(data@),
        r@.len() == 32,
{
    sha2::Sha256::digest(data).to_vec()
}

/// `a` sorts strictly before `b` (lexicographic byte order, a proper prefix
/// first), as `Ord` on byte vectors orders them.
pub open spec fn lex_lt(a: Seq<u8>, b: Seq<u8>) -> bool
    decreases a.len(),
{
    if a.len() == 0 {
        b.len() > 0
    } else if b.len() == 0 {
        false
    } else if a[0] != b[0] {
        a[0] < b[0]
    } else {
        lex_lt(a.drop_first(), b.drop_first())
    }
}

pub open spec fn lex_le(a: Seq<u8>, b: Seq<u8>) -> bool {
    a == b || lex_lt(a, b)
}

/// `x` placed before the first element of `s` that it does not exceed.
pub open spec fn insert_sorted(s: Seq<Seq<u8>>, x: Seq<u8>) -> Seq<Seq<u8>>
    decreases s.len(),
{
    if s.len() == 0 {
        seq![x]
    } else if lex_le(x, s[0]) {
        seq![x] + s
    } else {
        seq![s[0]] + insert_sorted(s.drop_first(), x)
    }
}

/// The ids in ascending order.
pub open spec fn sorted_ids(s: Seq<Seq<u8>>) -> Seq<Seq<u8>>
    decreases s.len(),
{
    if s.len() == 0 {
        Seq::empty()
    } else {
        insert_sorted(sorted_ids(s.drop_last()), s.last())
    }
}

/// The four little-endian bytes of `n`.
pub open spec fn le32(n: u32) -> Seq<u8> {
    seq![
        (n % 256) as u8,
        ((n / 256) % 256) as u8,
        ((n / 65536) % 256) as u8,
        (n / 16777216) as u8,
    ]
}

/// Each id prefixed with its length (as a little-endian `u32`).
pub open spec fn framed_ids(ids: Seq<Seq<u8>>) -> Seq<u8>
    decreases ids.len(),
{
    if ids.len() == 0 {
        Seq::empty()
    } else {
        framed_ids(ids.drop_last()) + le32(ids.last().len() as u32) + ids.last()
    }
}

/// What is hashed: a domain tag, the room id's UTF-8 bytes, a zero byte, then
/// the sorted, length-framed peer ids.
pub open spec fn session_preimage(room_id: Seq<u8>, peer_ids: Seq<Seq<u8>>) -> Seq<u8> {
    "tui-majo/mp/session/v1\0".spec_bytes() + room_id + seq![0u8] + framed_ids(sorted_ids(peer_ids))
}

/// Byte-string order: `a <= b`.
fn bytes_le(a: &[u8], b: &[u8]) -> (r: bool)
    ensures
        r == lex_le(a@, b@),
{
    let mut i: usize = 0;
    proof {
        assert(a@.skip(0) =~= a@);
        assert(b@.skip(0) =~= b@);
        assert(a@.take(0) =~= b@.take(0));
    }
    while i < a.len() && i < b.len()
        invariant
            i <= a@.len(),
            i <= b@.len(),
            a@.take(i as int) == b@.take(i as int),
            lex_le(a@, b@) == lex_le(a@.skip(i as int), b@.skip(i as int)),
        decreases a@.len() - i,
    {
        if a[i] != b[i] {
            proof {
                let sa = a@.skip(i as int);
                let sb = b@.skip(i as int);
                assert(sa[0] == a@[i as int] && sb[0] == b@[i as int]);
                assert(sa != sb);
            }
            return a[i] < b[i];
        }
        proof {
            let sa = a@.skip(i as int);
            let sb = b@.skip(i as int);
            assert(sa.drop_first() =~= a@.skip(i + 1));
            assert(sb.drop_first() =~= b@.skip(i + 1));
            assert(a@.take(i + 1) =~= a@.take(i as int).push(a@[i as int]));
            assert(b@.take(i + 1) =~= b@.take(i as int).push(b@[i as int]));
            assert(sa == sb <==> sa.drop_first() == sb.drop_first()) by {
                if sa.drop_first() == sb.drop_first() {
                    assert(sa =~= seq![sa[0]] + sa.drop_first());
                    assert(sb =~= seq![sb[0]] + sb.drop_first());
                }
            }
        }
        i = i + 1;
    }
    proof {
        let sa = a@.skip(i as int);
        let sb = b@.skip(i as int);
        if i == a@.len() {
            assert(a@.take(i as int) =~= a@);
            assert(sa =~= Seq::<u8>::empty());
        } else {
            assert(b@.take(i as int) =~= b@);
            assert(sb =~= Seq::<u8>::empty());
            assert(sa.len() > 0);
        }
    }
    a.len() <= b.len()
}

/// Where `insert_sorted` puts `x`: before the first element it does not
/// exceed.
proof fn lemma_insert_sorted_at(s: Seq<Seq<u8>>, x: Seq<u8>, j: int)
    requires
        0 <= j <= s.len(),
        forall|t: int| 0 <= t < j ==> !lex_le(x, #[trigger] s[t]),
        j < s.len() ==> lex_le(x, s[j]),
    ensures
        insert_sorted(s, x) == s.take(j) + seq![x] + s.skip(j),
    decreases s.len(),
{
    if s.len() == 0 {
        assert(s.take(j) + seq![x] + s.skip(j) =~= seq![x]);
    } else if j == 0 {
        assert(s.take(0) + seq![x] + s.skip(0) =~= seq![x] + s);
    } else {
        let r = s.drop_first();
        assert(!lex_le(x, s[0]));
        assert forall|t: int| 0 <= t < j - 1 implies !lex_le(x, #[trigger] r[t]) by {
            assert(r[t] == s[t + 1]);
        }
        if j < s.len() {
            assert(r[j - 1] == s[j]);
        }
        lemma_insert_sorted_at(r, x, j - 1);
        assert(seq![s[0]] + (r.take(j - 1) + seq![x] + r.skip(j - 1)) =~= s.take(j) + seq![x] + s.skip(j));
    }
}

/// The position before which `x` goes in the sorted list.
fn insert_position(sorted: &Vec<Vec<u8>>, x: &[u8]) -> (j: usize)
    ensures
        j <= sorted@.len(),
        forall|t: int| 0 <= t < j ==> !lex_le(x@, #[trigger] views(sorted@)[t]),
        j < sorted@.len() ==> lex_le(x@, views(sorted@)[j as int]),
{
    let mut j: usize = 0;
    while j < sorted.len()
        invariant
            j <= sorted@.len(),
            forall|t: int| 0 <= t < j ==> !lex_le(x@, #[trigger] views(sorted@)[t]),
        decreases sorted@.len() - j,
    {
        if bytes_le(x, sorted[j].as_slice()) {
            return j;
        }
        j = j + 1;
    }
    j
}

/// The peer ids in ascending order.
fn sort_ids(ids: &[Vec<u8>]) -> (r: Vec<Vec<u8>>)
    ensures
        views(r@) == sorted_ids(views(ids@)),
{
    let ghost v = views(ids@);
    let mut sorted: Vec<Vec<u8>> = Vec::new();
    let mut i: usize = 0;
    proof {
        assert(v.take(0) =~= Seq::<Seq<u8>>::empty());
        assert(views(sorted@) =~= Seq::<Seq<u8>>::empty());
    }
    while i < ids.len()
        invariant
            v == views(ids@),
            i <= ids@.len(),
            views(sorted@) == sorted_ids(v.take(i as int)),
        decreases ids@.len() - i,
    {
        let x = copy_bytes(&ids[i]);
        let j = insert_position(&sorted, x.as_slice());
        let ghost before = views(sorted@);
        proof {
            lemma_insert_sorted_at(before, x@, j as int);
            assert(v.take(i + 1).drop_last() =~= v.take(i as int));
            assert(v.take(i + 1).last() == x@);
        }
        sorted.insert(j, x);
        proof {
            assert(views(sorted@) =~= before.take(j as int) + seq![x@] + before.skip(j as int));
        }
        i = i + 1;
    }
    proof {
        assert(v.take(ids@.len() as int) =~= v);
    }
    sorted
}

fn push_bytes(out: &mut Vec<u8>, b: &[u8])
    ensures
        final(out)@ == old(out)@ + b@,
{
    let ghost start = out@;
    let mut i: usize = 0;
    while i < b.len()
        invariant
            i <= b@.len(),
            out@ == start + b@.take(i as int),
        decreases b@.len() - i,
    {
        out.push(b[i]);
        i = i + 1;
        assert(out@ =~= start + b@.take(i as int));
    }
    assert(b@.take(b@.len() as int) =~= b@);
}

fn push_le32(out: &mut Vec<u8>, n: u32)
    ensures
        final(out)@ == old(out)@ + le32(n),
{
    let ghost start = out@;
    out.push((n % 256) as u8);
    out.push(((n / 256) % 256) as u8);
    out.push(((n / 65536) % 256) as u8);
    out.push((n / 16777216) as u8);
    assert(out@ =~= start + le32(n));
}

/// The zero-trust session label: SHA-256 of the domain tag, the room id, a
/// zero byte and the length-framed peer ids in ascending order. Sorting makes
/// the label the same for every player, whatever order they hold the ids in.
pub fn compute_session_label(room_id: &str, peer_ids: &[Vec<u8>]) -> (r: Vec<u8>)
    ensures
        r@ == sha256_of(session_preimage(room_id.spec_bytes(), views(peer_ids@))),
{
    let sorted = sort_ids(peer_ids);
    let mut pre: Vec<u8> = Vec::new();
    let tag = "tui-majo/mp/session/v1\0";
    push_bytes(&mut pre, tag.as_bytes());
    push_bytes(&mut pre, room_id.as_bytes());
    pre.push(0u8);
    let ghost head = pre@;
    proof {
        assert(head =~= tag.spec_bytes() + room_id.spec_bytes() + seq![0u8]);
    }
    let ghost ids = views(sorted@);
    let mut i: usize = 0;
    proof {
        assert(ids.take(0) =~= Seq::<Seq<u8>>::empty());
        assert(pre@ =~= head + framed_ids(ids.take(0)));
    }
    while i < sorted.len()
        invariant
            ids == views(sorted@),
            i <= sorted@.len(),
            pre@ == head + framed_ids(ids.take(i as int)),
        decreases sorted@.len() - i,
    {
        let n = #[verifier::truncate] (sorted[i].len() as u32);
        proof {
            assert(ids.take(i + 1).drop_last() =~= ids.take(i as int));
            assert(ids.take(i + 1).last() == sorted@[i as int]@);
        }
        push_le32(&mut pre, n);
        push_bytes(&mut pre, sorted[i].as_slice());
        proof {
            assert(pre@ =~= head + framed_ids(ids.take(i + 1)));
        }
        i = i + 1;
    }
    proof {
        assert(ids.take(sorted@.len() as int) =~= ids);
        assert(pre@ == session_preimage(room_id.spec_bytes(), views(peer_ids@)));
    }
    sha256(pre.as_slice())
}

// ---------------------------------------------------------------------------
// Every player derives the same label
// ---------------------------------------------------------------------------

proof fn lemma_lex_irreflexive(a: Seq<u8>)
    ensures
        !lex_lt(a, a),
    decreases a.len(),
{
    if a.len() > 0 {
        lemma_lex_irreflexive(a.drop_first());
    }
}

proof fn lemma_lex_asymmetric(a: Seq<u8>, b: Seq<u8>)
    ensures
        !(lex_lt(a, b) && lex_lt(b, a)),
    decreases a.len(),
{
    if a.len() > 0 && b.len() > 0 && a[0] == b[0] {
        lemma_lex_asymmetric(a.drop_first(), b.drop_first());
    }
}

proof fn lemma_lex_total(a: Seq<u8>, b: Seq<u8>)
    ensures
        a == b || lex_lt(a, b) || lex_lt(b, a),
    decreases a.len(),
{
    if a.len() == 0 {
        if b.len() == 0 {
            assert(a =~= b);
        }
    } else if b.len() > 0 && a[0] == b[0] {
        lemma_lex_total(a.drop_first(), b.drop_first());
        if a.drop_first() == b.drop_first() {
            assert(a =~= seq![a[0]] + a.drop_first());
            assert(b =~= seq![b[0]] + b.drop_first());
        }
    }
}

proof fn lemma_lex_transitive(a: Seq<u8>, b: Seq<u8>, c: Seq<u8>)
    requires
        lex_lt(a, b),
        lex_lt(b, c),
    ensures
        lex_lt(a, c),
    decreases a.len(),
{
    if a.len() > 0 && b.len() > 0 && c.len() > 0 && a[0] == b[0] && b[0] == c[0] {
        lemma_lex_transitive(a.drop_first(), b.drop_first(), c.drop_first());
    }
}

/// `lex_le` is a total order.
proof fn lemma_lex_le_order(a: Seq<u8>, b: Seq<u8>, c: Seq<u8>)
    ensures
        lex_le(a, b) || lex_le(b, a),
        lex_le(a, b) && lex_le(b, a) ==> a == b,
        lex_le(a, b) && lex_le(b, c) ==> lex_le(a, c),
        !lex_le(a, b) ==> lex_lt(b, a),
{
    lemma_lex_total(a, b);
    lemma_lex_asymmetric(a, b);
    if lex_lt(a, b) && lex_lt(b, c) {
        lemma_lex_transitive(a, b, c);
    }
}

/// Ascending in byte-string order.
pub open spec fn ids_ascending(s: Seq<Seq<u8>>) -> bool {
    forall|i: int, j: int| 0 <= i < j < s.len() ==> lex_le(s[i], s[j])
}

proof fn lemma_insert_sorted(s: Seq<Seq<u8>>, x: Seq<u8>)
    requires
        ids_ascending(s),
    ensures
        ids_ascending(insert_sorted(s, x)),
        insert_sorted(s, x).to_multiset() == s.to_multiset().insert(x),
    decreases s.len(),
{
    broadcast use vstd::seq_lib::group_to_multiset_ensures;
    broadcast use vstd::multiset::group_multiset_axioms;

    let r = insert_sorted(s, x);
    if s.len() == 0 {
        assert(seq![x] =~= Seq::<Seq<u8>>::empty().push(x));
        assert(s.to_multiset() =~= vstd::multiset::Multiset::<Seq<u8>>::empty());
    } else if lex_le(x, s[0]) {
        assert(r == seq![x] + s);
        assert(r =~= s.insert(0, x));
        assert forall|i: int, j: int| 0 <= i < j < r.len() implies lex_le(r[i], r[j]) by {
            if i == 0 {
                lemma_lex_le_order(x, s[0], s[j - 1]);
            }
        }
    } else {
        let d = s.drop_first();
        let rd = insert_sorted(d, x);
        lemma_insert_sorted(d, x);
        assert(r == seq![s[0]] + rd);
        lemma_lex_le_order(x, s[0], s[0]);
        assert forall|k: int| 0 <= k < rd.len() implies lex_le(s[0], #[trigger] rd[k]) by {
            let e = rd[k];
            assert(rd.contains(e));
            assert(rd.to_multiset().count(e) > 0);
            if e != x {
                assert(d.to_multiset().count(e) > 0);
                assert(d.contains(e));
                let j = choose|j: int| 0 <= j < d.len() && d[j] == e;
                assert(s[j + 1] == e);
            }
        }
        assert forall|i: int, j: int| 0 <= i < j < r.len() implies lex_le(r[i], r[j]) by {
            if i == 0 {
                assert(r[j] == rd[j - 1]);
            } else {
                assert(r[i] == rd[i - 1] && r[j] == rd[j - 1]);
            }
        }
        assert(r =~= rd.insert(0, s[0]));
        assert(s =~= d.insert(0, s[0]));
        assert(r.to_multiset() =~= s.to_multiset().insert(x));
    }
}

proof fn lemma_sorted_ids(s: Seq<Seq<u8>>)
    ensures
        ids_ascending(sorted_ids(s)),
        sorted_ids(s).to_multiset() == s.to_multiset(),
    decreases s.len(),
{
    broadcast use vstd::seq_lib::group_to_multiset_ensures;

    if s.len() == 0 {
        assert(sorted_ids(s) =~= s);
    } else {
        lemma_sorted_ids(s.drop_last());
        lemma_insert_sorted(sorted_ids(s.drop_last()), s.last());
        assert(s =~= s.drop_last().push(s.last()));
    }
}

/// Two ascending lists with the same elements are the same list.
proof fn lemma_ascending_unique(s: Seq<Seq<u8>>, t: Seq<Seq<u8>>)
    requires
        ids_ascending(s),
        ids_ascending(t),
        s.to_multiset() == t.to_multiset(),
    ensures
        s == t,
    decreases s.len(),
{
    broadcast use vstd::seq_lib::group_to_multiset_ensures;
    broadcast use vstd::multiset::group_multiset_axioms;

    vstd::seq_lib::to_multiset_len(s);
    vstd::seq_lib::to_multiset_len(t);
    if s.len() == 0 {
        assert(t.len() == 0);
        assert(s =~= t);
    } else {
        assert(t.len() == s.len());
        assert(s.to_multiset().count(s[0]) > 0);
        assert(t.contains(s[0]));
        let j = choose|j: int| 0 <= j < t.len() && t[j] == s[0];
        assert(lex_le(t[0], s[0])) by {
            if j > 0 {
                assert(lex_le(t[0], t[j]));
            }
        }
        assert(t.to_multiset().count(t[0]) > 0);
        assert(s.contains(t[0]));
        let i = choose|i: int| 0 <= i < s.len() && s[i] == t[0];
        assert(lex_le(s[0], t[0])) by {
            if i > 0 {
                assert(lex_le(s[0], s[i]));
            }
        }
        lemma_lex_le_order(s[0], t[0], t[0]);
        assert(s[0] == t[0]);
        let sd = s.drop_first();
        let td = t.drop_first();
        assert(s.remove(0) =~= sd);
        assert(t.remove(0) =~= td);
        assert(sd.to_multiset() == td.to_multiset());
        assert(ids_ascending(sd)) by {
            assert forall|a: int, b: int| 0 <= a < b < sd.len() implies lex_le(sd[a], sd[b]) by {
                assert(sd[a] == s[a + 1] && sd[b] == s[b + 1]);
            }
        }
        assert(ids_ascending(td)) by {
            assert forall|a: int, b: int| 0 <= a < b < td.len() implies lex_le(td[a], td[b]) by {
                assert(td[a] == t[a + 1] && td[b] == t[b + 1]);
            }
        }
        lemma_ascending_unique(sd, td);
        assert forall|k: int| 0 <= k < s.len() implies s[k] == t[k] by {
            if k > 0 {
                assert(s[k] == sd[k - 1] && t[k] == td[k - 1]);
            }
        }
        assert(s =~= t);
    }
}

/// Peers who hold the same ids in any order hash the same bytes, so every
/// player derives the same session label.
pub proof fn law_session_label_order_independent(room_id: Seq<u8>, a: Seq<Seq<u8>>, b: Seq<Seq<u8>>)
    requires
        a.to_multiset() == b.to_multiset(),
    ensures
        sorted_ids(a) == sorted_ids(b),
        session_preimage(room_id, a) == session_preimage(room_id, b),
{
    lemma_sorted_ids(a);
    lemma_sorted_ids(b);
    lemma_ascending_unique(sorted_ids(a), sorted_ids(b));
}

} // verus!
