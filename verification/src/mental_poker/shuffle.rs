//! Permutations for the joint shuffle (protocol 1).
//!
//! A permutation π of length N is stored as a vector where `π[i] = j` means
//! "output position i takes the element at input position j".

use vstd::prelude::*;
use vstd::set_lib::*;
use vstd::relations::injective_on;
use ark_std::rand::rngs::StdRng;
use ark_std::rand::RngCore;

verus! {

/// `s` maps [0, N) bijectively onto [0, N): every entry is in range and no
/// entry occurs twice.
pub open spec fn is_permutation(s: Seq<usize>) -> bool {
    &&& forall|i: int| 0 <= i < s.len() ==> (#[trigger] s[i]) < s.len()
    &&& forall|i: int, j: int| 0 <= i < s.len() && 0 <= j < s.len() && i != j ==> s[i] != s[j]
}

/// Every entry of `s` is a valid index into a vector of length `s.len()`.
pub open spec fn entries_in_range(s: Seq<usize>) -> bool {
    forall|i: int| 0 <= i < s.len() ==> (#[trigger] s[i]) < s.len()
}

/// `out[i] = items[p[i]]`.
pub open spec fn permute<T>(p: Seq<usize>, items: Seq<T>) -> Seq<T> {
    Seq::new(p.len(), |i: int| items[p[i] as int])
}

/// The table built by writing `inv[p[i]] = i` for `i = 0, 1, .., k - 1`
/// into a table of zeros of length `p.len()`.
pub open spec fn inverse_prefix(p: Seq<usize>, k: nat) -> Seq<usize>
    decreases k,
{
    if k == 0 {
        Seq::new(p.len(), |i: int| 0usize)
    } else {
        inverse_prefix(p, (k - 1) as nat).update(p[k - 1] as int, (k - 1) as usize)
    }
}

/// The table that [`Permutation::inverse`] computes.
pub open spec fn inverse_of(p: Seq<usize>) -> Seq<usize> {
    inverse_prefix(p, p.len())
}

/// A permutation, as a mapping from output positions to input positions.
#[derive(Debug, Clone, PartialEq, Eq)]
pub struct Permutation(Vec<usize>);

impl View for Permutation {
    type V = Seq<usize>;

    closed spec fn view(&self) -> Seq<usize> {
        self.0@
    }
}

/// The entries of the table after `k` writes: the table keeps its length,
/// and each position holds the last writer among the first `k`, or zero.
proof fn lemma_inverse_prefix(p: Seq<usize>, k: nat)
    requires
        k <= p.len(),
        p.len() <= usize::MAX,
        entries_in_range(p),
    ensures
        inverse_prefix(p, k).len() == p.len(),
        forall|i: int| #![trigger p[i]] 0 <= i < k ==> {
            let v = inverse_prefix(p, k)[p[i] as int];
            &&& (v as int) < k
            &&& p[v as int] == p[i]
        },
        forall|j: int|
            0 <= j < p.len() && (forall|i: int| 0 <= i < k ==> p[i] != j) ==> #[trigger] inverse_prefix(
                p,
                k,
            )[j] == 0,
    decreases k,
{
    if k > 0 {
        let km = (k - 1) as nat;
        lemma_inverse_prefix(p, km);
        let prev = inverse_prefix(p, km);
        let cur = inverse_prefix(p, k);
        assert forall|i: int| #![trigger p[i]] 0 <= i < k implies {
            let v = cur[p[i] as int];
            &&& (v as int) < k
            &&& p[v as int] == p[i]
        } by {
            if p[i] == p[km as int] {
                assert(cur[p[i] as int] == km);
            } else {
                assert(cur[p[i] as int] == prev[p[i] as int]);
                if i == km {
                } else {
                    assert(0 <= i < km);
                }
            }
        }
    }
}

/// A sequence without repeated entries, all below its length, hits every
/// position below its length.
proof fn lemma_permutation_onto(p: Seq<usize>, j: int)
    requires
        is_permutation(p),
        0 <= j < p.len(),
    ensures
        exists|i: int| 0 <= i < p.len() && p[i] == j,
{
    let n = p.len() as int;
    let dom = set_int_range(0, n);
    let f = |i: int| p[i] as int;
    let img = dom.map(f);
    lemma_int_range(0, n);
    assert(injective_on(f, dom)) by {
        assert forall|a: int, b: int| dom.contains(a) && dom.contains(b) && #[trigger] f(a) == #[trigger] f(b) implies a == b by {
            if a != b {
                assert(p[a] != p[b]);
            }
        }
    }
    lemma_map_size(dom, img, f);
    assert(img.subset_of(dom)) by {
        assert forall|x: int| img.contains(x) implies dom.contains(x) by {
            let i = choose|i: int| dom.contains(i) && f(i) == x;
            assert(p[i] < p.len());
        }
    }
    lemma_subset_equality(img, dom);
    assert(img.contains(j));
    let i = choose|i: int| dom.contains(i) && f(i) == j;
    assert(0 <= i < p.len() && p[i] == j);
}

/// The inverse of a permutation is a permutation, and composing the two in
/// either order gives the identity.
pub proof fn lemma_inverse_is_permutation(p: Seq<usize>)
    requires
        is_permutation(p),
        p.len() <= usize::MAX,
    ensures
        inverse_of(p).len() == p.len(),
        is_permutation(inverse_of(p)),
        forall|i: int| 0 <= i < p.len() ==> inverse_of(p)[#[trigger] p[i] as int] == i,
        forall|j: int| 0 <= j < p.len() ==> p[#[trigger] inverse_of(p)[j] as int] == j,
{
    let inv = inverse_of(p);
    lemma_inverse_prefix(p, p.len());
    assert forall|i: int| 0 <= i < p.len() implies inv[#[trigger] p[i] as int] == i by {
        let v = inv[p[i] as int];
        assert(p[v as int] == p[i]);
        if v as int != i {
            assert(p[v as int] != p[i]);
        }
    }
    assert forall|j: int| 0 <= j < p.len() implies p[#[trigger] inv[j] as int] == j by {
        lemma_permutation_onto(p, j);
        let i = choose|i: int| 0 <= i < p.len() && p[i] == j;
        assert(inv[p[i] as int] == i);
    }
    assert forall|j: int| 0 <= j < inv.len() implies (#[trigger] inv[j]) < inv.len() by {
        lemma_permutation_onto(p, j);
        let i = choose|i: int| 0 <= i < p.len() && p[i] == j;
        assert(inv[p[i] as int] == i);
    }
    assert forall|a: int, b: int| 0 <= a < inv.len() && 0 <= b < inv.len() && a != b implies inv[a]
        != inv[b] by {
        assert(p[inv[a] as int] == a);
        assert(p[inv[b] as int] == b);
    }
}

/// Applying a permutation and then its inverse gives back the sequence it
/// started from.
pub proof fn law_inverse_undoes_apply<T>(p: Seq<usize>, items: Seq<T>)
    requires
        is_permutation(p),
        p.len() <= usize::MAX,
        items.len() == p.len(),
    ensures
        permute(inverse_of(p), permute(p, items)) == items,
{
    lemma_inverse_is_permutation(p);
    let shuffled = permute(p, items);
    let restored = permute(inverse_of(p), shuffled);
    assert forall|i: int| 0 <= i < items.len() implies restored[i] == items[i] by {
        let k = inverse_of(p)[i] as int;
        assert(p[k] == i);
    }
    assert(restored =~= items);
}

/// Inverting a permutation twice gives the permutation back.
pub proof fn law_inverse_of_inverse(p: Seq<usize>)
    requires
        is_permutation(p),
        p.len() <= usize::MAX,
    ensures
        inverse_of(inverse_of(p)) == p,
{
    let q = inverse_of(p);
    lemma_inverse_is_permutation(p);
    lemma_inverse_is_permutation(q);
    let r = inverse_of(q);
    assert forall|k: int| 0 <= k < p.len() implies r[k] == p[k] by {
        let j = p[k] as int;
        assert(q[j] == k);
        assert(r[q[j] as int] == j);
    }
    assert(r =~= p);
}

/// Swapping two entries keeps a permutation a permutation.
proof fn lemma_swap_keeps_permutation(s: Seq<usize>, i: int, j: int)
    requires
        is_permutation(s),
        0 <= i < s.len(),
        0 <= j < s.len(),
    ensures
        is_permutation(s.update(i, s[j]).update(j, s[i])),
{
    let t = s.update(i, s[j]).update(j, s[i]);
    assert forall|a: int, b: int| 0 <= a < t.len() && 0 <= b < t.len() && a != b implies t[a]
        != t[b] by {
        let sa = if a == j { i } else if a == i { j } else { a };
        let sb = if b == j { i } else if b == i { j } else { b };
        assert(t[a] == s[sa]);
        assert(t[b] == s[sb]);
    }
}

/// The standard random generator of `rand` (through `ark_std`).
#[verifier::external_type_specification]
#[verifier::external_body]
pub struct ExStdRng(StdRng);

/// `rand::RngCore::next_u64`: the generator's next 64 random bits. Nothing
/// is promised of the value.
#[verifier::external_body]
fn next_random_word(rng: &mut StdRng) -> u64 {
    rng.next_u64()
}

/// `s` with the entries at `i` and `j` exchanged.
pub open spec fn swapped(s: Seq<usize>, i: int, j: int) -> Seq<usize> {
    s.update(i, s[j]).update(j, s[i])
}

/// Fisher-Yates from position `i - 1` down to 1: the step at position `k`
/// takes the next draw `d` and exchanges `k` with `d % (k + 1)`; the draws
/// are taken in order, one per step.
pub open spec fn fy_from(s: Seq<usize>, i: int, draws: Seq<u64>) -> Seq<usize>
    decreases i,
{
    if i <= 1 {
        s
    } else {
        let k = i - 1;
        let j = ((draws[s.len() - 1 - k] as usize) as int) % (k + 1);
        fy_from(swapped(s, k, j), k, draws)
    }
}

/// The permutation of length `n` that Fisher-Yates makes from `draws`,
/// starting from the identity.
pub open spec fn fisher_yates(n: nat, draws: Seq<u64>) -> Seq<usize> {
    fy_from(Seq::new(n, |i: int| i as usize), n as int, draws)
}

impl Permutation {
    /// Fisher-Yates on the identity of length `n`, with the given random
    /// draws (one per step, `n - 1` steps).
    pub fn from_draws(n: usize, draws: &Vec<u64>) -> (r: Self)
        requires
            n <= draws@.len() + 1,
        ensures
            r@ == fisher_yates(n as nat, draws@),
            r@.len() == n,
            is_permutation(r@),
    {
        let mut indices: Vec<usize> = Vec::new();
        let mut k: usize = 0;
        while k < n
            invariant
                k <= n,
                indices@.len() == k,
                forall|t: int| 0 <= t < k ==> indices@[t] == t,
            decreases n - k,
        {
            indices.push(k);
            k = k + 1;
        }
        assert(indices@ =~= Seq::new(n as nat, |i: int| i as usize));
        assert(is_permutation(indices@));
        let mut i: usize = n;
        while i > 1
            invariant
                i <= n,
                n <= draws@.len() + 1,
                indices@.len() == n,
                is_permutation(indices@),
                fy_from(indices@, i as int, draws@) == fisher_yates(n as nat, draws@),
            decreases i,
        {
            i = i - 1;
            let w = draws[n - 1 - i];
            let j: usize = (w as usize) % (i + 1);
            let a = indices[i];
            let b = indices[j];
            proof {
                lemma_swap_keeps_permutation(indices@, i as int, j as int);
                assert(swapped(indices@, i as int, j as int) == indices@.update(i as int, b).update(j as int, a));
            }
            indices.set(i, b);
            indices.set(j, a);
        }
        Permutation(indices)
    }

    /// Fisher-Yates: a uniformly random permutation of length `n`, made from
    /// `n - 1` draws of the generator.
    pub fn random(rng: &mut StdRng, n: usize) -> (r: Self)
        ensures
            r@.len() == n,
            is_permutation(r@),
            exists|draws: Seq<u64>| n <= draws.len() + 1 && r@ == fisher_yates(n as nat, draws),
    {
        let mut draws: Vec<u64> = Vec::new();
        let mut i: usize = n;
        while i > 1
            invariant
                i <= n,
                draws@.len() == n - i,
            decreases i,
        {
            draws.push(next_random_word(rng));
            i = i - 1;
        }
        Permutation::from_draws(n, &draws)
    }

    /// Length.
    pub fn len(&self) -> (r: usize)
        ensures
            r == self@.len(),
    {
        self.0.len()
    }

    pub fn is_empty(&self) -> (r: bool)
        ensures
            r == (self@.len() == 0),
    {
        self.0.len() == 0
    }

    /// `out[i] = items[π[i]]`.
    pub fn apply<T: Clone>(&self, items: &[T]) -> (out: Vec<T>)
        requires
            items@.len() == self@.len(),
            entries_in_range(self@),
        ensures
            out@.len() == self@.len(),
            forall|i: int| 0 <= i < out@.len() ==> cloned::<T>(items@[self@[i] as int], #[trigger] out@[i]),
    {
        let n = self.0.len();
        let mut out: Vec<T> = Vec::new();
        let mut i: usize = 0;
        while i < n
            invariant
                n == self@.len(),
                items@.len() == n,
                entries_in_range(self@),
                i <= n,
                out@.len() == i,
                forall|t: int| 0 <= t < i ==> cloned::<T>(items@[self@[t] as int], #[trigger] out@[t]),
            decreases n - i,
        {
            let idx = self.0[i];
            out.push(items[idx].clone());
            i = i + 1;
        }
        out
    }

    /// The underlying mapping.
    pub fn as_slice(&self) -> (r: &[usize])
        ensures
            r@ == self@,
    {
        self.0.as_slice()
    }

    /// The inverse mapping: if `self = π` is a permutation, returns `π⁻¹`.
    pub fn inverse(&self) -> (r: Self)
        requires
            entries_in_range(self@),
        ensures
            r@ == inverse_of(self@),
            r@.len() == self@.len(),
            is_permutation(self@) ==> is_permutation(r@) && entries_in_range(r@),
            is_permutation(self@) ==> inverse_of(r@) == self@,
            is_permutation(self@) ==> forall|i: int|
                0 <= i < self@.len() ==> r@[#[trigger] self@[i] as int] == i,
    {
        let n = self.0.len();
        let mut inv: Vec<usize> = Vec::new();
        let mut k: usize = 0;
        while k < n
            invariant
                k <= n,
                inv@.len() == k,
                forall|t: int| 0 <= t < k ==> inv@[t] == 0,
            decreases n - k,
        {
            inv.push(0);
            k = k + 1;
        }
        assert(inv@ =~= inverse_prefix(self@, 0));
        let mut i: usize = 0;
        while i < n
            invariant
                n == self@.len(),
                entries_in_range(self@),
                i <= n,
                inv@ == inverse_prefix(self@, i as nat),
            decreases n - i,
        {
            proof {
                lemma_inverse_prefix(self@, i as nat);
            }
            let j = self.0[i];
            inv.set(j, i);
            i = i + 1;
        }
        proof {
            lemma_inverse_prefix(self@, n as nat);
            if is_permutation(self@) {
                lemma_inverse_is_permutation(self@);
                law_inverse_of_inverse(self@);
            }
        }
        Permutation(inv)
    }

    /// Whether the mapping is a permutation (every value of [0, N) occurs
    /// exactly once).
    pub fn is_valid(&self) -> (r: bool)
        ensures
            r == is_permutation(self@),
    {
        let n = self.0.len();
        let mut seen: Vec<bool> = Vec::new();
        let mut k: usize = 0;
        while k < n
            invariant
                k <= n,
                seen@.len() == k,
                forall|t: int| 0 <= t < k ==> !seen@[t],
            decreases n - k,
        {
            seen.push(false);
            k = k + 1;
        }
        let mut i: usize = 0;
        while i < n
            invariant
                n == self@.len(),
                i <= n,
                seen@.len() == n,
                forall|t: int| 0 <= t < i ==> (#[trigger] self@[t]) < n,
                forall|a: int, b: int| 0 <= a < i && 0 <= b < i && a != b ==> self@[a] != self@[b],
                forall|v: int|
                    0 <= v < n ==> (seen@[v] <==> exists|t: int| 0 <= t < i && self@[t] == v),
            decreases n - i,
        {
            let v = self.0[i];
            if v >= n {
                return false;
            }
            if seen[v] {
                proof {
                    let t = choose|t: int| 0 <= t < i && self@[t] == v;
                    assert(self@[t] == self@[i as int]);
                }
                return false;
            }
            seen.set(v, true);
            i = i + 1;
            proof {
                assert forall|w: int| 0 <= w < n implies (seen@[w] <==> exists|t: int|
                    0 <= t < i && self@[t] == w) by {
                    if w == v as int {
                        assert(self@[i - 1] == w);
                    } else if seen@[w] {
                        let t = choose|t: int| 0 <= t < i - 1 && self@[t] == w;
                        assert(0 <= t < i && self@[t] == w);
                    }
                }
            }
        }
        true
    }

    /// Wraps a raw mapping without checking it.
    pub fn from_raw(indices: Vec<usize>) -> (r: Self)
        ensures
            r@ == indices@,
    {
        Permutation(indices)
    }
}

} // verus!
