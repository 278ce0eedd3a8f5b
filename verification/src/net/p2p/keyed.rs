//! Small maps keyed by byte strings (peer ids), kept as lists of entries with
//! distinct keys, with their mathematical value as a `Map`.

use vstd::prelude::*;
use crate::mental_poker::point::bytes_eq;

verus! {

pub open spec fn has_bkey<V>(s: Seq<(Vec<u8>, V)>, k: Seq<u8>) -> bool {
    exists|i: int| 0 <= i < s.len() && (#[trigger] s[i]).0@ == k
}

pub open spec fn bkey_pos<V>(s: Seq<(Vec<u8>, V)>, k: Seq<u8>) -> int {
    choose|i: int| 0 <= i < s.len() && (#[trigger] s[i]).0@ == k
}

/// No key occurs twice.
pub open spec fn unique_bkeys<V>(s: Seq<(Vec<u8>, V)>) -> bool {
    forall|i: int, j: int| 0 <= i < s.len() && 0 <= j < s.len() && i != j ==> s[i].0@ != s[j].0@
}

/// The map that the entries describe.
pub open spec fn bmap<V: View>(s: Seq<(Vec<u8>, V)>) -> Map<Seq<u8>, V::V> {
    Map::new(|k: Seq<u8>| has_bkey(s, k), |k: Seq<u8>| s[bkey_pos(s, k)].1@)
}

pub proof fn lemma_bkey_pos<V>(s: Seq<(Vec<u8>, V)>, i: int)
    requires
        unique_bkeys(s),
        0 <= i < s.len(),
    ensures
        has_bkey(s, s[i].0@),
        bkey_pos(s, s[i].0@) == i,
{
    assert(s[i].0@ == s[i].0@);
    let p = bkey_pos(s, s[i].0@);
    assert(0 <= p < s.len() && s[p].0@ == s[i].0@);
}

/// The entry holding key `k`.
pub fn bfind<V>(s: &Vec<(Vec<u8>, V)>, k: &[u8]) -> (r: Option<usize>)
    ensures
        match r {
            Some(i) => i < s@.len() && s@[i as int].0@ == k@,
            None => !has_bkey(s@, k@),
        },
{
    let mut i: usize = 0;
    while i < s.len()
        invariant
            i <= s@.len(),
            forall|j: int| 0 <= j < i ==> s@[j].0@ != k@,
        decreases s@.len() - i,
    {
        if bytes_eq(s[i].0.as_slice(), k) {
            return Some(i);
        }
        i = i + 1;
    }
    None
}

/// Sets the value of key `k`, replacing an existing entry in place or adding
/// one at the end.
pub fn bset<V: View>(s: &mut Vec<(Vec<u8>, V)>, k: Vec<u8>, v: V)
    requires
        unique_bkeys(old(s)@),
    ensures
        unique_bkeys(final(s)@),
        bmap(final(s)@) == bmap(old(s)@).insert(k@, v@),
{
    let ghost old_s = s@;
    let ghost kv = k@;
    let ghost vv = v@;
    match bfind(s, k.as_slice()) {
        Some(i) => {
            s.set(i, (k, v));
            proof {
                let t = s@;
                assert(unique_bkeys(t)) by {
                    assert forall|a: int, b: int| 0 <= a < t.len() && 0 <= b < t.len() && a != b implies t[a].0@ != t[b].0@ by {
                        if a != i && b != i {
                            assert(t[a] == old_s[a] && t[b] == old_s[b]);
                        } else if a == i {
                            assert(t[b] == old_s[b]);
                            assert(old_s[a].0@ == kv);
                        } else {
                            assert(t[a] == old_s[a]);
                            assert(old_s[b].0@ == kv);
                        }
                    }
                }
                assert forall|kk: Seq<u8>| #[trigger] has_bkey(t, kk) == has_bkey(old_s, kk) by {
                    if has_bkey(old_s, kk) {
                        let j = choose|j: int| 0 <= j < old_s.len() && (#[trigger] old_s[j]).0@ == kk;
                        assert(t[j].0@ == kk);
                    }
                    if has_bkey(t, kk) {
                        let j = choose|j: int| 0 <= j < t.len() && (#[trigger] t[j]).0@ == kk;
                        assert(old_s[j].0@ == kk);
                    }
                }
                assert forall|kk: Seq<u8>| #[trigger] has_bkey(t, kk) implies bmap(t)[kk] == bmap(old_s).insert(kv, vv)[kk] by {
                    let j = choose|j: int| 0 <= j < t.len() && (#[trigger] t[j]).0@ == kk;
                    lemma_bkey_pos(t, j);
                    lemma_bkey_pos(old_s, j);
                }
                assert(bmap(t) =~= bmap(old_s).insert(kv, vv));
            }
        },
        None => {
            s.push((k, v));
            proof {
                let t = s@;
                assert(unique_bkeys(t)) by {
                    assert forall|a: int, b: int| 0 <= a < t.len() && 0 <= b < t.len() && a != b implies t[a].0@ != t[b].0@ by {
                        if a < old_s.len() && b < old_s.len() {
                            assert(t[a] == old_s[a] && t[b] == old_s[b]);
                        } else if a == old_s.len() {
                            assert(t[b] == old_s[b]);
                        } else {
                            assert(t[a] == old_s[a]);
                        }
                    }
                }
                assert forall|kk: Seq<u8>| #[trigger] has_bkey(t, kk) == (has_bkey(old_s, kk) || kk == kv) by {
                    if has_bkey(old_s, kk) {
                        let j = choose|j: int| 0 <= j < old_s.len() && (#[trigger] old_s[j]).0@ == kk;
                        assert(t[j].0@ == kk);
                    }
                    if has_bkey(t, kk) && kk != kv {
                        let j = choose|j: int| 0 <= j < t.len() && (#[trigger] t[j]).0@ == kk;
                        assert(old_s[j].0@ == kk);
                    }
                    if kk == kv {
                        assert(t[old_s.len() as int].0@ == kv);
                    }
                }
                assert forall|kk: Seq<u8>| #[trigger] has_bkey(t, kk) implies bmap(t)[kk] == bmap(old_s).insert(kv, vv)[kk] by {
                    let j = choose|j: int| 0 <= j < t.len() && (#[trigger] t[j]).0@ == kk;
                    lemma_bkey_pos(t, j);
                    if j < old_s.len() {
                        lemma_bkey_pos(old_s, j);
                    }
                }
                assert(bmap(t) =~= bmap(old_s).insert(kv, vv));
            }
        },
    }
}

/// Removes key `k`.
pub fn bremove<V: View>(s: &mut Vec<(Vec<u8>, V)>, k: &[u8])
    requires
        unique_bkeys(old(s)@),
    ensures
        unique_bkeys(final(s)@),
        bmap(final(s)@) == bmap(old(s)@).remove(k@),
{
    let ghost old_s = s@;
    match bfind(s, k) {
        Some(i) => {
            s.remove(i);
            proof {
                let t = s@;
                let kv = k@;
                assert forall|a: int| 0 <= a < t.len() implies #[trigger] t[a] == old_s[if a < i { a } else { a + 1 }] by {}
                assert(unique_bkeys(t)) by {
                    assert forall|a: int, b: int| 0 <= a < t.len() && 0 <= b < t.len() && a != b implies t[a].0@ != t[b].0@ by {
                        let a0 = if a < i { a } else { a + 1 };
                        let b0 = if b < i { b } else { b + 1 };
                        assert(t[a] == old_s[a0] && t[b] == old_s[b0]);
                    }
                }
                assert forall|kk: Seq<u8>| #[trigger] has_bkey(t, kk) == (has_bkey(old_s, kk) && kk != kv) by {
                    if has_bkey(old_s, kk) && kk != kv {
                        let j = choose|j: int| 0 <= j < old_s.len() && (#[trigger] old_s[j]).0@ == kk;
                        assert(j != i);
                        let j2 = if j < i { j } else { j - 1 };
                        assert(t[j2] == old_s[j]);
                    }
                    if has_bkey(t, kk) {
                        let j = choose|j: int| 0 <= j < t.len() && (#[trigger] t[j]).0@ == kk;
                        let j0 = if j < i { j } else { j + 1 };
                        assert(t[j] == old_s[j0]);
                        assert(j0 != i);
                    }
                }
                assert forall|kk: Seq<u8>| #[trigger] has_bkey(t, kk) implies bmap(t)[kk] == bmap(old_s).remove(kv)[kk] by {
                    let j = choose|j: int| 0 <= j < t.len() && (#[trigger] t[j]).0@ == kk;
                    let j0 = if j < i { j } else { j + 1 };
                    assert(t[j] == old_s[j0]);
                    lemma_bkey_pos(t, j);
                    lemma_bkey_pos(old_s, j0);
                }
                assert(bmap(t) =~= bmap(old_s).remove(kv));
            }
        },
        None => {
            proof {
                assert(bmap(old_s).remove(k@) =~= bmap(old_s));
            }
        },
    }
}

} // verus!
