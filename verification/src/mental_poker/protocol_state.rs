//! The per-player hand ledger shared by protocols 4-7.
//!
//! Each player keeps, for every seat, a ledger of deck positions:
//! - **drawn**: positions drawn by protocol 2, with the plaintext where this
//!   mirror knows it (only the drawing player's own mirror does);
//! - **discarded**: positions discarded by protocol 4 (plaintext public);
//! - **melds**: open melds of protocol 5;
//! - **concealed kans**: protocol 6 (positions public, plaintexts seen by one
//!   monitor).
//!
//! Every announcement moves all mirrors in step; honest mirrors stay equal.
//! This module checks only the position/plaintext bookkeeping and ownership;
//! whether tiles form a legal meld is the game engine's concern.

use vstd::prelude::*;
use super::point::{bytes_eq, copy_bytes, copy_byte_list, views};

verus! {

/// Kind of an open call (protocol 5).
#[derive(Debug, Clone, Copy, PartialEq, Eq, Structural)]
pub enum CallType {
    /// Three in sequence (one from the discarder, two from the hand).
    Chi,
    /// Three of a kind.
    Pon,
    /// Open quad: one discard and three from the hand. An added quad upgrades
    /// a `Pon` through [`HandState::record_shouminkan`].
    Kan,
}

pub open spec fn call_size(c: CallType) -> int {
    match c {
        CallType::Chi | CallType::Pon => 3,
        CallType::Kan => 4,
    }
}

impl CallType {
    pub fn expected_indices_count(self) -> (r: usize)
        ensures
            r == call_size(self),
    {
        match self {
            CallType::Chi | CallType::Pon => 3,
            CallType::Kan => 4,
        }
    }
}

/// One open meld (protocol 5).
#[derive(Debug, Clone, PartialEq, Eq)]
pub struct MeldRecord {
    pub call_type: CallType,
    /// Deck positions of the meld, including the called discard.
    pub deck_indices: Vec<usize>,
    /// The plaintexts, position by position.
    pub plaintexts: Vec<Vec<u8>>,
    /// Whose discard was called.
    pub from_player: usize,
    /// Where the called discard sits in `deck_indices`.
    pub from_position_in_meld: usize,
}

/// The mathematical value of a [`MeldRecord`].
pub struct MeldView {
    pub call_type: CallType,
    pub deck_indices: Seq<usize>,
    pub plaintexts: Seq<Seq<u8>>,
    pub from_player: usize,
    pub from_position_in_meld: usize,
}

impl View for MeldRecord {
    type V = MeldView;

    open spec fn view(&self) -> MeldView {
        MeldView {
            call_type: self.call_type,
            deck_indices: self.deck_indices@,
            plaintexts: views(self.plaintexts@),
            from_player: self.from_player,
            from_position_in_meld: self.from_position_in_meld,
        }
    }
}

/// One concealed kan (protocol 6).
#[derive(Debug, Clone, Copy, PartialEq, Eq)]
pub struct ConcealedKanRecord {
    pub deck_indices: [usize; 4],
    /// The player who checks the four plaintexts.
    pub monitor_player: usize,
}

/// The mathematical value of a hand ledger.
pub struct HandView {
    pub drawn: Map<usize, Option<Seq<u8>>>,
    pub discarded: Map<usize, Seq<u8>>,
    pub melds: Seq<MeldView>,
    pub concealed_kans: Seq<ConcealedKanRecord>,
}

/// `k` is a position of some meld.
pub open spec fn is_melded(v: HandView, k: usize) -> bool {
    exists|m: int, i: int|
        0 <= m < v.melds.len() && 0 <= i < v.melds[m].deck_indices.len()
            && #[trigger] v.melds[m].deck_indices[i] == k
}

/// `k` is a position of some meld other than its called discard.
pub open spec fn is_own_melded(v: HandView, k: usize) -> bool {
    exists|m: int, i: int|
        0 <= m < v.melds.len() && 0 <= i < v.melds[m].deck_indices.len() && i
            != v.melds[m].from_position_in_meld && #[trigger] v.melds[m].deck_indices[i] == k
}

/// `k` is a position of some concealed kan.
pub open spec fn is_kanned(v: HandView, k: usize) -> bool {
    exists|m: int, i: int|
        0 <= m < v.concealed_kans.len() && 0 <= i < 4
            && #[trigger] v.concealed_kans[m].deck_indices[i] == k
}

/// The position is in the player's hand: drawn, and not discarded, melded
/// or used in a concealed kan.
pub open spec fn in_hand(v: HandView, k: usize) -> bool {
    &&& v.drawn.contains_key(k)
    &&& !v.discarded.contains_key(k)
    &&& !is_melded(v, k)
    &&& !is_kanned(v, k)
}

/// What every ledger reachable through the transitions satisfies: whatever
/// left the hand was drawn first, and a drawn position left the hand at
/// most one way: discarded, in one meld (other than as its called discard),
/// or in one concealed kan.
pub open spec fn ledger_consistent(v: HandView) -> bool {
    &&& forall|k: usize| #[trigger] v.discarded.contains_key(k) ==> v.drawn.contains_key(k) && !is_kanned(v, k) && !is_own_melded(v, k)
    &&& forall|k: usize| #[trigger] is_kanned(v, k) ==> v.drawn.contains_key(k) && !is_own_melded(v, k)
    &&& forall|k: usize| #[trigger] is_own_melded(v, k) ==> v.drawn.contains_key(k)
    &&& melds_disjoint(v)
    &&& kans_disjoint(v)
}

/// No position is an own position (not the called discard) of two
/// different melds.
pub open spec fn melds_disjoint(v: HandView) -> bool {
    forall|a: int, b: int, i: int, j: int|
        0 <= a < v.melds.len() && 0 <= b < v.melds.len() && a != b
            && 0 <= i < v.melds[a].deck_indices.len() && i != v.melds[a].from_position_in_meld
            && 0 <= j < v.melds[b].deck_indices.len() && j != v.melds[b].from_position_in_meld
            ==> #[trigger] v.melds[a].deck_indices[i] != #[trigger] v.melds[b].deck_indices[j]
}

/// No position belongs to two different concealed kans.
pub open spec fn kans_disjoint(v: HandView) -> bool {
    forall|a: int, b: int, i: int, j: int|
        0 <= a < v.concealed_kans.len() && 0 <= b < v.concealed_kans.len() && a != b && 0 <= i < 4 && 0 <= j < 4
            ==> #[trigger] v.concealed_kans[a].deck_indices[i] != #[trigger] v.concealed_kans[b].deck_indices[j]
}

// ---------------------------------------------------------------------------
// association lists
// ---------------------------------------------------------------------------

pub open spec fn has_key<V>(s: Seq<(usize, V)>, k: usize) -> bool {
    exists|i: int| 0 <= i < s.len() && (#[trigger] s[i]).0 == k
}

pub open spec fn key_pos<V>(s: Seq<(usize, V)>, k: usize) -> int {
    choose|i: int| 0 <= i < s.len() && (#[trigger] s[i]).0 == k
}

pub open spec fn unique_keys<V>(s: Seq<(usize, V)>) -> bool {
    forall|i: int, j: int| 0 <= i < s.len() && 0 <= j < s.len() && i != j ==> s[i].0 != s[j].0
}

pub open spec fn opt_view(o: Option<Vec<u8>>) -> Option<Seq<u8>> {
    match o {
        Some(v) => Some(v@),
        None => None,
    }
}

pub open spec fn drawn_map(s: Seq<(usize, Option<Vec<u8>>)>) -> Map<usize, Option<Seq<u8>>> {
    Map::new(|k: usize| has_key(s, k), |k: usize| opt_view(s[key_pos(s, k)].1))
}

pub open spec fn discarded_map(s: Seq<(usize, Vec<u8>)>) -> Map<usize, Seq<u8>> {
    Map::new(|k: usize| has_key(s, k), |k: usize| s[key_pos(s, k)].1@)
}

proof fn lemma_key_pos<V>(s: Seq<(usize, V)>, i: int)
    requires
        unique_keys(s),
        0 <= i < s.len(),
    ensures
        has_key(s, s[i].0),
        key_pos(s, s[i].0) == i,
{
    assert(s[i].0 == s[i].0);
    let p = key_pos(s, s[i].0);
    assert(0 <= p < s.len() && s[p].0 == s[i].0);
}

proof fn lemma_drawn_push(s: Seq<(usize, Option<Vec<u8>>)>, k: usize, v: Option<Vec<u8>>)
    requires
        unique_keys(s),
        !has_key(s, k),
    ensures
        unique_keys(s.push((k, v))),
        drawn_map(s.push((k, v))) == drawn_map(s).insert(k, opt_view(v)),
{
    let t = s.push((k, v));
    assert(unique_keys(t)) by {
        assert forall|i: int, j: int| 0 <= i < t.len() && 0 <= j < t.len() && i != j implies t[i].0 != t[j].0 by {
            if i < s.len() && j < s.len() {
            } else if i == s.len() {
                assert(s[j] == t[j]);
            } else {
                assert(s[i] == t[i]);
            }
        }
    }
    assert forall|kk: usize| drawn_map(t).contains_key(kk) == drawn_map(s).insert(k, opt_view(v)).contains_key(kk) by {
        if has_key(s, kk) {
            let i = choose|i: int| 0 <= i < s.len() && (#[trigger] s[i]).0 == kk;
            assert(t[i].0 == kk);
        }
        if has_key(t, kk) && kk != k {
            let i = choose|i: int| 0 <= i < t.len() && (#[trigger] t[i]).0 == kk;
            assert(s[i].0 == kk);
        }
        if kk == k {
            assert(t[s.len() as int].0 == k);
        }
    }
    assert forall|kk: usize| #[trigger] drawn_map(t).contains_key(kk) implies drawn_map(t)[kk] == drawn_map(s).insert(k, opt_view(v))[kk] by {
        if kk == k {
            lemma_key_pos(t, s.len() as int);
        } else {
            let i = choose|i: int| 0 <= i < t.len() && (#[trigger] t[i]).0 == kk;
            lemma_key_pos(t, i);
            lemma_key_pos(s, i);
        }
    }
    assert(drawn_map(t) =~= drawn_map(s).insert(k, opt_view(v)));
}

proof fn lemma_discarded_push(s: Seq<(usize, Vec<u8>)>, k: usize, v: Vec<u8>)
    requires
        unique_keys(s),
        !has_key(s, k),
    ensures
        unique_keys(s.push((k, v))),
        discarded_map(s.push((k, v))) == discarded_map(s).insert(k, v@),
{
    let t = s.push((k, v));
    assert(unique_keys(t)) by {
        assert forall|i: int, j: int| 0 <= i < t.len() && 0 <= j < t.len() && i != j implies t[i].0 != t[j].0 by {
            if i < s.len() && j < s.len() {
            } else if i == s.len() {
                assert(s[j] == t[j]);
            } else {
                assert(s[i] == t[i]);
            }
        }
    }
    assert forall|kk: usize| discarded_map(t).contains_key(kk) == discarded_map(s).insert(k, v@).contains_key(kk) by {
        if has_key(s, kk) {
            let i = choose|i: int| 0 <= i < s.len() && (#[trigger] s[i]).0 == kk;
            assert(t[i].0 == kk);
        }
        if has_key(t, kk) && kk != k {
            let i = choose|i: int| 0 <= i < t.len() && (#[trigger] t[i]).0 == kk;
            assert(s[i].0 == kk);
        }
        if kk == k {
            assert(t[s.len() as int].0 == k);
        }
    }
    assert forall|kk: usize| #[trigger] discarded_map(t).contains_key(kk) implies discarded_map(t)[kk] == discarded_map(s).insert(k, v@)[kk] by {
        if kk == k {
            lemma_key_pos(t, s.len() as int);
        } else {
            let i = choose|i: int| 0 <= i < t.len() && (#[trigger] t[i]).0 == kk;
            lemma_key_pos(t, i);
            lemma_key_pos(s, i);
        }
    }
    assert(discarded_map(t) =~= discarded_map(s).insert(k, v@));
}


proof fn lemma_scan_none(v: HandView, idxs: Seq<usize>, skip: int, i: int)
    requires
        0 <= i,
        scan_missing(v, idxs, skip, i) is None,
    ensures
        forall|j: int| i <= j < idxs.len() && j != skip ==> in_hand(v, #[trigger] idxs[j]),
    decreases idxs.len() - i,
{
    if i < idxs.len() {
        lemma_scan_none(v, idxs, skip, i + 1);
    }
}

proof fn lemma_meld_push_consistent(h: HandView, m: MeldView)
    requires
        ledger_consistent(h),
        scan_missing(h, m.deck_indices, m.from_position_in_meld as int, 0) is None,
    ensures
        ledger_consistent(HandView { melds: h.melds.push(m), ..h }),
{
    let n = HandView { melds: h.melds.push(m), ..h };
    lemma_scan_none(h, m.deck_indices, m.from_position_in_meld as int, 0);
    assert(n.concealed_kans == h.concealed_kans);
    assert forall|k: usize| #[trigger] is_kanned(n, k) == is_kanned(h, k) by {
        if is_kanned(n, k) {
            let (a, i) = choose|a: int, i: int|
                0 <= a < n.concealed_kans.len() && 0 <= i < 4 && #[trigger] n.concealed_kans[a].deck_indices[i] == k;
            assert(h.concealed_kans[a].deck_indices[i] == k);
        }
        if is_kanned(h, k) {
            let (a, i) = choose|a: int, i: int|
                0 <= a < h.concealed_kans.len() && 0 <= i < 4 && #[trigger] h.concealed_kans[a].deck_indices[i] == k;
            assert(n.concealed_kans[a].deck_indices[i] == k);
        }
    }
    assert forall|k: usize| #[trigger] is_own_melded(n, k) implies is_own_melded(h, k) || in_hand(h, k) by {
        let (a, i) = choose|a: int, i: int|
            0 <= a < n.melds.len() && 0 <= i < n.melds[a].deck_indices.len() && i
                != n.melds[a].from_position_in_meld && #[trigger] n.melds[a].deck_indices[i] == k;
        if a < h.melds.len() {
            assert(h.melds[a].deck_indices[i] == k);
        } else {
            assert(in_hand(h, m.deck_indices[i]));
        }
    }
    assert forall|k: usize| #[trigger] n.discarded.contains_key(k) implies n.drawn.contains_key(k) && !is_kanned(n, k) && !is_own_melded(n, k) by {
        assert(h.discarded.contains_key(k));
    }
    assert forall|k: usize| #[trigger] is_kanned(n, k) implies n.drawn.contains_key(k) && !is_own_melded(n, k) by {
        assert(is_kanned(h, k));
        if is_own_melded(n, k) && !is_own_melded(h, k) {
            assert(in_hand(h, k));
        }
    }
    assert forall|k: usize| #[trigger] is_own_melded(n, k) implies n.drawn.contains_key(k) by {
        if !is_own_melded(h, k) {
            assert(in_hand(h, k));
        }
    }
}

proof fn lemma_kan_push_consistent(h: HandView, kan: ConcealedKanRecord)
    requires
        ledger_consistent(h),
        scan_missing(h, kan.deck_indices@, -1, 0) is None,
    ensures
        ledger_consistent(HandView { concealed_kans: h.concealed_kans.push(kan), ..h }),
{
    let n = HandView { concealed_kans: h.concealed_kans.push(kan), ..h };
    lemma_scan_none(h, kan.deck_indices@, -1, 0);
    assert forall|k: usize| #[trigger] is_own_melded(n, k) == is_own_melded(h, k) by {}
    assert forall|k: usize| #[trigger] is_kanned(n, k) implies is_kanned(h, k) || in_hand(h, k) by {
        let (a, i) = choose|a: int, i: int|
            0 <= a < n.concealed_kans.len() && 0 <= i < 4 && #[trigger] n.concealed_kans[a].deck_indices[i] == k;
        if a < h.concealed_kans.len() {
            assert(h.concealed_kans[a].deck_indices[i] == k);
        } else {
            assert(in_hand(h, kan.deck_indices@[i]));
        }
    }
    assert forall|k: usize| #[trigger] in_hand(h, k) implies !is_own_melded(h, k) by {
        if is_own_melded(h, k) {
            let (a, i) = choose|a: int, i: int|
                0 <= a < h.melds.len() && 0 <= i < h.melds[a].deck_indices.len() && i
                    != h.melds[a].from_position_in_meld && #[trigger] h.melds[a].deck_indices[i] == k;
            assert(h.melds[a].deck_indices[i] == k);
        }
    }
    assert forall|k: usize| #[trigger] n.discarded.contains_key(k) implies n.drawn.contains_key(k) && !is_kanned(n, k) && !is_own_melded(n, k) by {
        assert(h.discarded.contains_key(k));
    }
    assert forall|k: usize| #[trigger] is_kanned(n, k) implies n.drawn.contains_key(k) && !is_own_melded(n, k) by {
        if !is_kanned(h, k) {
            assert(in_hand(h, k));
        }
    }
    assert forall|k: usize| #[trigger] is_own_melded(n, k) implies n.drawn.contains_key(k) by {
        assert(is_own_melded(h, k));
    }
}

proof fn lemma_shouminkan_consistent(h: HandView, target: usize, k0: usize, pt: Seq<u8>)
    requires
        ledger_consistent(h),
        target < h.melds.len(),
        in_hand(h, k0),
    ensures
        ({
            let m = h.melds[target as int];
            let n = HandView {
                melds: h.melds.update(target as int, MeldView {
                    call_type: CallType::Kan,
                    deck_indices: m.deck_indices.push(k0),
                    plaintexts: m.plaintexts.push(pt),
                    ..m
                }),
                ..h
            };
            ledger_consistent(n)
        }),
{
    let m = h.melds[target as int];
    let nm = MeldView {
        call_type: CallType::Kan,
        deck_indices: m.deck_indices.push(k0),
        plaintexts: m.plaintexts.push(pt),
        ..m
    };
    let n = HandView { melds: h.melds.update(target as int, nm), ..h };
    assert(n.concealed_kans == h.concealed_kans);
    assert forall|k: usize| #[trigger] is_kanned(n, k) == is_kanned(h, k) by {
        if is_kanned(n, k) {
            let (a, i) = choose|a: int, i: int|
                0 <= a < n.concealed_kans.len() && 0 <= i < 4 && #[trigger] n.concealed_kans[a].deck_indices[i] == k;
            assert(h.concealed_kans[a].deck_indices[i] == k);
        }
        if is_kanned(h, k) {
            let (a, i) = choose|a: int, i: int|
                0 <= a < h.concealed_kans.len() && 0 <= i < 4 && #[trigger] h.concealed_kans[a].deck_indices[i] == k;
            assert(n.concealed_kans[a].deck_indices[i] == k);
        }
    }
    assert forall|k: usize| #[trigger] is_own_melded(n, k) implies is_own_melded(h, k) || k == k0 by {
        let (a, i) = choose|a: int, i: int|
            0 <= a < n.melds.len() && 0 <= i < n.melds[a].deck_indices.len() && i
                != n.melds[a].from_position_in_meld && #[trigger] n.melds[a].deck_indices[i] == k;
        if a != target {
            assert(h.melds[a].deck_indices[i] == k);
        } else if i < m.deck_indices.len() {
            assert(h.melds[a].deck_indices[i] == k);
        }
    }
    assert(!is_own_melded(h, k0)) by {
        if is_own_melded(h, k0) {
            let (a, i) = choose|a: int, i: int|
                0 <= a < h.melds.len() && 0 <= i < h.melds[a].deck_indices.len() && i
                    != h.melds[a].from_position_in_meld && #[trigger] h.melds[a].deck_indices[i] == k0;
            assert(h.melds[a].deck_indices[i] == k0);
        }
    }
    assert forall|k: usize| #[trigger] n.discarded.contains_key(k) implies n.drawn.contains_key(k) && !is_kanned(n, k) && !is_own_melded(n, k) by {
        assert(h.discarded.contains_key(k));
    }
    assert forall|k: usize| #[trigger] is_kanned(n, k) implies n.drawn.contains_key(k) && !is_own_melded(n, k) by {
        assert(is_kanned(h, k));
    }
    assert forall|k: usize| #[trigger] is_own_melded(n, k) implies n.drawn.contains_key(k) by {
        if k != k0 {
            assert(is_own_melded(h, k));
        }
    }
}

/// A copy of a list of positions.
pub(crate) fn copy_usizes(v: &Vec<usize>) -> (r: Vec<usize>)
    ensures
        r@ == v@,
{
    let mut out: Vec<usize> = Vec::new();
    let mut i: usize = 0;
    while i < v.len()
        invariant
            i <= v@.len(),
            out@ == v@.take(i as int),
        decreases v@.len() - i,
    {
        out.push(v[i]);
        i = i + 1;
        assert(out@ =~= v@.take(i as int));
    }
    assert(v@.take(v@.len() as int) =~= v@);
    out
}

// ---------------------------------------------------------------------------
// HandState
// ---------------------------------------------------------------------------

/// One player's ledger.
#[derive(Debug, Clone)]
pub struct HandState {
    drawn: Vec<(usize, Option<Vec<u8>>)>,
    discarded: Vec<(usize, Vec<u8>)>,
    melds: Vec<MeldRecord>,
    concealed_kans: Vec<ConcealedKanRecord>,
}

/// Ledger errors.
#[derive(Debug, Clone, Copy, PartialEq, Eq, Structural)]
pub enum HandStateError {
    /// The position was drawn before.
    AlreadyDrawn { index: usize },
    /// The position was never drawn.
    NotDrawn { index: usize },
    /// The position has already been discarded, melded or used in a kan.
    NotInHand { index: usize },
    /// The position has already been discarded.
    AlreadyDiscarded { index: usize },
    /// Plaintexts and positions differ in number.
    SizeMismatch { got: usize, expected: usize },
    /// The call takes another number of positions.
    WrongCallSize { expected: CallType, expected_count: usize, got: usize },
    /// The called discard's position is outside the meld.
    FromPositionOutOfRange { pos: usize, len: usize },
    /// The meld to upgrade does not exist.
    ShouminkanTargetOutOfRange { idx: usize, len: usize },
    /// The meld to upgrade is not a pon.
    ShouminkanNotPon { idx: usize, actual: CallType },
    /// The added tile's plaintext differs from the pon's.
    ShouminkanPlaintextMismatch { idx: usize },
    /// The called discard is not among the discarder's discards.
    FromDiscardNotFound { from_player: usize, from_index: usize },
}

/// The first position of `idxs`, scanning from `i` and skipping position
/// `skip`, that is not in the hand.
pub open spec fn scan_missing(v: HandView, idxs: Seq<usize>, skip: int, i: int) -> Option<usize>
    decreases idxs.len() - i,
{
    if i < 0 || i >= idxs.len() {
        None
    } else if i != skip && !in_hand(v, idxs[i]) {
        Some(idxs[i])
    } else {
        scan_missing(v, idxs, skip, i + 1)
    }
}

/// Outcome of recording a draw.
pub open spec fn spec_record_draw(h: HandView, k: usize, pt: Option<Seq<u8>>) -> (Result<(), HandStateError>, HandView) {
    if h.drawn.contains_key(k) {
        (Err(HandStateError::AlreadyDrawn { index: k }), h)
    } else {
        (Ok(()), HandView { drawn: h.drawn.insert(k, pt), ..h })
    }
}

/// Outcome of recording a discard.
pub open spec fn spec_record_discard(h: HandView, k: usize, pt: Seq<u8>) -> (Result<(), HandStateError>, HandView) {
    if !h.drawn.contains_key(k) {
        (Err(HandStateError::NotDrawn { index: k }), h)
    } else if h.discarded.contains_key(k) {
        (Err(HandStateError::AlreadyDiscarded { index: k }), h)
    } else if is_melded(h, k) || is_kanned(h, k) {
        (Err(HandStateError::NotInHand { index: k }), h)
    } else {
        (Ok(()), HandView { discarded: h.discarded.insert(k, pt), ..h })
    }
}

/// Outcome of recording an open meld: the sizes are checked, then every
/// position except the called discard must be in the hand.
pub open spec fn spec_record_meld(h: HandView, m: MeldView) -> (Result<(), HandStateError>, HandView) {
    let len = m.deck_indices.len();
    if len != m.plaintexts.len() {
        (Err(HandStateError::SizeMismatch { got: m.plaintexts.len() as usize, expected: len as usize }), h)
    } else if len != call_size(m.call_type) {
        (Err(HandStateError::WrongCallSize { expected: m.call_type, expected_count: call_size(m.call_type) as usize, got: len as usize }), h)
    } else if m.from_position_in_meld >= len {
        (Err(HandStateError::FromPositionOutOfRange { pos: m.from_position_in_meld, len: len as usize }), h)
    } else {
        match scan_missing(h, m.deck_indices, m.from_position_in_meld as int, 0) {
            Some(k) => (Err(HandStateError::NotInHand { index: k }), h),
            None => (Ok(()), HandView { melds: h.melds.push(m), ..h }),
        }
    }
}

/// Outcome of recording a concealed kan: all four positions must be in the
/// hand.
pub open spec fn spec_record_concealed_kan(h: HandView, kan: ConcealedKanRecord) -> (Result<(), HandStateError>, HandView) {
    match scan_missing(h, kan.deck_indices@, -1, 0) {
        Some(k) => (Err(HandStateError::NotInHand { index: k }), h),
        None => (Ok(()), HandView { concealed_kans: h.concealed_kans.push(kan), ..h }),
    }
}

/// Outcome of an added kan: the target meld must exist, the new position be
/// in the hand, the target be a pon, and the new plaintext equal the pon's
/// first plaintext; the pon then becomes a kan with the new position and
/// plaintext appended.
pub open spec fn spec_record_shouminkan(h: HandView, target: usize, k: usize, pt: Seq<u8>) -> (Result<(), HandStateError>, HandView) {
    if target >= h.melds.len() {
        (Err(HandStateError::ShouminkanTargetOutOfRange { idx: target, len: h.melds.len() as usize }), h)
    } else if !in_hand(h, k) {
        (Err(HandStateError::NotInHand { index: k }), h)
    } else if h.melds[target as int].call_type != CallType::Pon {
        (Err(HandStateError::ShouminkanNotPon { idx: target, actual: h.melds[target as int].call_type }), h)
    } else if h.melds[target as int].plaintexts.len() == 0 || h.melds[target as int].plaintexts[0] != pt {
        (Err(HandStateError::ShouminkanPlaintextMismatch { idx: target }), h)
    } else {
        let m = h.melds[target as int];
        (Ok(()), HandView {
            melds: h.melds.update(target as int, MeldView {
                call_type: CallType::Kan,
                deck_indices: m.deck_indices.push(k),
                plaintexts: m.plaintexts.push(pt),
                ..m
            }),
            ..h
        })
    }
}

impl View for HandState {
    type V = HandView;

    closed spec fn view(&self) -> HandView {
        HandView {
            drawn: drawn_map(self.drawn@),
            discarded: discarded_map(self.discarded@),
            melds: self.melds@.map_values(|m: MeldRecord| m@),
            concealed_kans: self.concealed_kans@,
        }
    }
}

impl HandState {
    /// Internal well-formedness: positions occur once in each list, and the
    /// ledger is consistent.
    pub closed spec fn wf(&self) -> bool {
        &&& unique_keys(self.drawn@)
        &&& unique_keys(self.discarded@)
        &&& ledger_consistent(self@)
    }

    /// An empty ledger.
    pub fn new() -> (r: Self)
        ensures
            r.wf(),
            r@.drawn == Map::<usize, Option<Seq<u8>>>::empty(),
            r@.discarded == Map::<usize, Seq<u8>>::empty(),
            r@.melds == Seq::<MeldView>::empty(),
            r@.concealed_kans == Seq::<ConcealedKanRecord>::empty(),
    {
        let r = HandState { drawn: Vec::new(), discarded: Vec::new(), melds: Vec::new(), concealed_kans: Vec::new() };
        assert(r@.drawn =~= Map::<usize, Option<Seq<u8>>>::empty());
        assert(r@.discarded =~= Map::<usize, Seq<u8>>::empty());
        assert(r@.melds =~= Seq::<MeldView>::empty());
        r
    }

    fn find_drawn(&self, k: usize) -> (r: Option<usize>)
        requires
            unique_keys(self.drawn@),
        ensures
            r is Some <==> has_key(self.drawn@, k),
            r matches Some(i) ==> i < self.drawn@.len() && i == key_pos(self.drawn@, k),
    {
        let mut i: usize = 0;
        while i < self.drawn.len()
            invariant
                unique_keys(self.drawn@),
                i <= self.drawn@.len(),
                forall|t: int| 0 <= t < i ==> (#[trigger] self.drawn@[t]).0 != k,
            decreases self.drawn@.len() - i,
        {
            if self.drawn[i].0 == k {
                proof {
                    lemma_key_pos(self.drawn@, i as int);
                }
                return Some(i);
            }
            i = i + 1;
        }
        None
    }

    fn find_discarded(&self, k: usize) -> (r: Option<usize>)
        requires
            unique_keys(self.discarded@),
        ensures
            r is Some <==> has_key(self.discarded@, k),
            r matches Some(i) ==> i < self.discarded@.len() && i == key_pos(self.discarded@, k),
    {
        let mut i: usize = 0;
        while i < self.discarded.len()
            invariant
                unique_keys(self.discarded@),
                i <= self.discarded@.len(),
                forall|t: int| 0 <= t < i ==> (#[trigger] self.discarded@[t]).0 != k,
            decreases self.discarded@.len() - i,
        {
            if self.discarded[i].0 == k {
                proof {
                    lemma_key_pos(self.discarded@, i as int);
                }
                return Some(i);
            }
            i = i + 1;
        }
        None
    }

    fn is_melded_exec(&self, k: usize) -> (r: bool)
        ensures
            r == is_melded(self@, k),
    {
        let mut m: usize = 0;
        while m < self.melds.len()
            invariant
                m <= self.melds@.len(),
                forall|a: int, i: int|
                    0 <= a < m && 0 <= i < self.melds@[a].deck_indices@.len() ==> #[trigger] self.melds@[a].deck_indices@[i] != k,
            decreases self.melds@.len() - m,
        {
            let idxs = &self.melds[m].deck_indices;
            let mut i: usize = 0;
            while i < idxs.len()
                invariant
                    m < self.melds@.len(),
                    i <= idxs@.len(),
                    idxs@ == self.melds@[m as int].deck_indices@,
                    forall|t: int| 0 <= t < i ==> idxs@[t] != k,
                decreases idxs@.len() - i,
            {
                if idxs[i] == k {
                    proof {
                        assert(self@.melds[m as int].deck_indices[i as int] == k);
                    }
                    return true;
                }
                i = i + 1;
            }
            m = m + 1;
        }
        proof {
            if is_melded(self@, k) {
                let (a, i) = choose|a: int, i: int|
                    0 <= a < self@.melds.len() && 0 <= i < self@.melds[a].deck_indices.len()
                        && #[trigger] self@.melds[a].deck_indices[i] == k;
                assert(self.melds@[a].deck_indices@[i] == k);
            }
        }
        false
    }

    fn is_kanned_exec(&self, k: usize) -> (r: bool)
        ensures
            r == is_kanned(self@, k),
    {
        let mut m: usize = 0;
        while m < self.concealed_kans.len()
            invariant
                m <= self.concealed_kans@.len(),
                forall|a: int, i: int|
                    0 <= a < m && 0 <= i < 4 ==> #[trigger] self.concealed_kans@[a].deck_indices[i] != k,
            decreases self.concealed_kans@.len() - m,
        {
            let idxs = self.concealed_kans[m].deck_indices;
            let mut i: usize = 0;
            while i < 4
                invariant
                    m < self.concealed_kans@.len(),
                    i <= 4,
                    idxs == self.concealed_kans@[m as int].deck_indices,
                    forall|t: int| 0 <= t < i ==> idxs[t] != k,
                decreases 4 - i,
            {
                if idxs[i] == k {
                    proof {
                        assert(self@.concealed_kans[m as int].deck_indices[i as int] == k);
                    }
                    return true;
                }
                i = i + 1;
            }
            m = m + 1;
        }
        false
    }

    /// The position is in the hand: drawn, not discarded, not melded, not in
    /// a concealed kan.
    pub fn has_in_hand(&self, deck_index: usize) -> (r: bool)
        requires
            self.wf(),
        ensures
            r == in_hand(self@, deck_index),
    {
        self.find_drawn(deck_index).is_some() && self.find_discarded(deck_index).is_none()
            && !self.is_melded_exec(deck_index) && !self.is_kanned_exec(deck_index)
    }

    /// All positions are in the hand.
    pub fn has_all_in_hand(&self, indices: &[usize]) -> (r: bool)
        requires
            self.wf(),
        ensures
            r == forall|i: int| 0 <= i < indices@.len() ==> in_hand(self@, #[trigger] indices@[i]),
    {
        let mut i: usize = 0;
        while i < indices.len()
            invariant
                self.wf(),
                i <= indices@.len(),
                forall|t: int| 0 <= t < i ==> in_hand(self@, #[trigger] indices@[t]),
            decreases indices@.len() - i,
        {
            if !self.has_in_hand(indices[i]) {
                return false;
            }
            i = i + 1;
        }
        true
    }

    /// The drawn positions, each once.
    pub fn drawn_indices(&self) -> (r: Vec<usize>)
        requires
            self.wf(),
        ensures
            r@.no_duplicates(),
            forall|k: usize| r@.contains(k) <==> self@.drawn.contains_key(k),
    {
        let mut out: Vec<usize> = Vec::new();
        let mut i: usize = 0;
        while i < self.drawn.len()
            invariant
                unique_keys(self.drawn@),
                i <= self.drawn@.len(),
                out@.len() == i,
                forall|t: int| 0 <= t < i ==> #[trigger] out@[t] == self.drawn@[t].0,
            decreases self.drawn@.len() - i,
        {
            out.push(self.drawn[i].0);
            i = i + 1;
        }
        proof {
            assert forall|k: usize| out@.contains(k) <==> self@.drawn.contains_key(k) by {
                if self@.drawn.contains_key(k) {
                    let t = choose|t: int| 0 <= t < self.drawn@.len() && (#[trigger] self.drawn@[t]).0 == k;
                    assert(out@[t] == k);
                }
                if out@.contains(k) {
                    let t = choose|t: int| 0 <= t < out@.len() && out@[t] == k;
                    assert(self.drawn@[t].0 == k);
                }
            }
        }
        out
    }

    /// The discarded positions, each once.
    pub fn discarded_indices(&self) -> (r: Vec<usize>)
        requires
            self.wf(),
        ensures
            r@.no_duplicates(),
            forall|k: usize| r@.contains(k) <==> self@.discarded.contains_key(k),
    {
        let mut out: Vec<usize> = Vec::new();
        let mut i: usize = 0;
        while i < self.discarded.len()
            invariant
                unique_keys(self.discarded@),
                i <= self.discarded@.len(),
                out@.len() == i,
                forall|t: int| 0 <= t < i ==> #[trigger] out@[t] == self.discarded@[t].0,
            decreases self.discarded@.len() - i,
        {
            out.push(self.discarded[i].0);
            i = i + 1;
        }
        proof {
            assert forall|k: usize| out@.contains(k) <==> self@.discarded.contains_key(k) by {
                if self@.discarded.contains_key(k) {
                    let t = choose|t: int| 0 <= t < self.discarded@.len() && (#[trigger] self.discarded@[t]).0 == k;
                    assert(out@[t] == k);
                }
                if out@.contains(k) {
                    let t = choose|t: int| 0 <= t < out@.len() && out@[t] == k;
                    assert(self.discarded@[t].0 == k);
                }
            }
        }
        out
    }

    pub fn melds(&self) -> (r: &[MeldRecord])
        ensures
            r@.map_values(|m: MeldRecord| m@) == self@.melds,
    {
        self.melds.as_slice()
    }

    pub fn concealed_kans(&self) -> (r: &[ConcealedKanRecord])
        ensures
            r@ == self@.concealed_kans,
    {
        self.concealed_kans.as_slice()
    }

    /// The public plaintext of a discarded position.
    pub fn discarded_plaintext(&self, deck_index: usize) -> (r: Option<&Vec<u8>>)
        requires
            self.wf(),
        ensures
            r is Some <==> self@.discarded.contains_key(deck_index),
            r matches Some(p) ==> p@ == self@.discarded[deck_index],
    {
        match self.find_discarded(deck_index) {
            Some(i) => Some(&self.discarded[i].1),
            None => None,
        }
    }

    /// The plaintext of a drawn position, where this mirror knows it.
    pub fn drawn_plaintext(&self, deck_index: usize) -> (r: Option<&Vec<u8>>)
        requires
            self.wf(),
        ensures
            r is Some <==> (self@.drawn.contains_key(deck_index) && self@.drawn[deck_index] is Some),
            r matches Some(p) ==> Some(p@) == self@.drawn[deck_index],
    {
        match self.find_drawn(deck_index) {
            Some(i) => match &self.drawn[i].1 {
                Some(p) => Some(p),
                None => None,
            },
            None => None,
        }
    }

    // --- protocol 2: draw ---

    /// Records a draw. The plaintext is known only in the drawing player's
    /// own mirror.
    pub fn record_draw(&mut self, deck_index: usize, plaintext: Option<Vec<u8>>) -> (r: Result<(), HandStateError>)
        requires
            old(self).wf(),
        ensures
            final(self).wf(),
            (r, final(self)@) == spec_record_draw(old(self)@, deck_index, opt_view(plaintext)),
    {
        if self.find_drawn(deck_index).is_some() {
            return Err(HandStateError::AlreadyDrawn { index: deck_index });
        }
        proof {
            lemma_drawn_push(self.drawn@, deck_index, plaintext);
        }
        let ghost before = self@;
        self.drawn.push((deck_index, plaintext));
        proof {
            let after = self@;
            assert(after.melds == before.melds);
            assert(after.concealed_kans == before.concealed_kans);
            assert(after.discarded == before.discarded);
            assert(after.drawn == before.drawn.insert(deck_index, opt_view(plaintext)));
            assert forall|k: usize| #[trigger] is_kanned(after, k) == is_kanned(before, k) by {}
            assert forall|k: usize| #[trigger] is_own_melded(after, k) == is_own_melded(before, k) by {}
            assert forall|k: usize| #[trigger] after.discarded.contains_key(k) implies after.drawn.contains_key(k) && !is_kanned(after, k) && !is_own_melded(after, k) by {
                assert(before.discarded.contains_key(k));
            }
            assert forall|k: usize| #[trigger] is_kanned(after, k) implies after.drawn.contains_key(k) && !is_own_melded(after, k) by {
                assert(is_kanned(before, k));
            }
            assert forall|k: usize| #[trigger] is_own_melded(after, k) implies after.drawn.contains_key(k) by {
                assert(is_own_melded(before, k));
            }
        }
        Ok(())
    }

    // --- protocol 4: discard ---

    /// Records one of the player's own discards.
    pub fn record_discard(&mut self, deck_index: usize, plaintext: Vec<u8>) -> (r: Result<(), HandStateError>)
        requires
            old(self).wf(),
        ensures
            final(self).wf(),
            (r, final(self)@) == spec_record_discard(old(self)@, deck_index, plaintext@),
            r is Ok <==> in_hand(old(self)@, deck_index),
    {
        if self.find_drawn(deck_index).is_none() {
            return Err(HandStateError::NotDrawn { index: deck_index });
        }
        if self.find_discarded(deck_index).is_some() {
            return Err(HandStateError::AlreadyDiscarded { index: deck_index });
        }
        if self.is_melded_exec(deck_index) || self.is_kanned_exec(deck_index) {
            return Err(HandStateError::NotInHand { index: deck_index });
        }
        proof {
            lemma_discarded_push(self.discarded@, deck_index, plaintext);
        }
        let ghost before = self@;
        let ghost pt = plaintext@;
        self.discarded.push((deck_index, plaintext));
        proof {
            let after = self@;
            assert(after.melds == before.melds);
            assert(after.concealed_kans == before.concealed_kans);
            assert(after.drawn == before.drawn);
            assert(after.discarded == before.discarded.insert(deck_index, pt));
            assert forall|k: usize| #[trigger] is_kanned(after, k) == is_kanned(before, k) by {}
            assert forall|k: usize| #[trigger] is_own_melded(after, k) == is_own_melded(before, k) by {}
            assert(!is_own_melded(before, deck_index)) by {
                if is_own_melded(before, deck_index) {
                    let (a, i) = choose|a: int, i: int|
                        0 <= a < before.melds.len() && 0 <= i < before.melds[a].deck_indices.len() && i
                            != before.melds[a].from_position_in_meld && #[trigger] before.melds[a].deck_indices[i] == deck_index;
                    assert(before.melds[a].deck_indices[i] == deck_index);
                }
            }
            assert forall|k: usize| #[trigger] after.discarded.contains_key(k) implies after.drawn.contains_key(k) && !is_kanned(after, k) && !is_own_melded(after, k) by {
                if k != deck_index {
                    assert(before.discarded.contains_key(k));
                }
            }
            assert forall|k: usize| #[trigger] is_kanned(after, k) implies after.drawn.contains_key(k) && !is_own_melded(after, k) by {
                assert(is_kanned(before, k));
            }
            assert forall|k: usize| #[trigger] is_own_melded(after, k) implies after.drawn.contains_key(k) by {
                assert(is_own_melded(before, k));
            }
        }
        Ok(())
    }

    fn scan(&self, idxs: &[usize], skip: Option<usize>) -> (r: Option<usize>)
        requires
            self.wf(),
        ensures
            r == scan_missing(self@, idxs@, match skip { Some(s) => s as int, None => -1 }, 0),
    {
        let ghost sk: int = match skip { Some(s) => s as int, None => -1 };
        let mut i: usize = 0;
        while i < idxs.len()
            invariant
                self.wf(),
                i <= idxs@.len(),
                sk == match skip { Some(s) => s as int, None => -1 },
                scan_missing(self@, idxs@, sk, 0) == scan_missing(self@, idxs@, sk, i as int),
            decreases idxs@.len() - i,
        {
            let skipped = match skip {
                Some(s) => s == i,
                None => false,
            };
            if !skipped && !self.has_in_hand(idxs[i]) {
                return Some(idxs[i]);
            }
            i = i + 1;
        }
        None
    }

    // --- protocol 5: open meld ---

    /// Records an open meld. Checks the sizes, then that every position but
    /// the called discard is in the hand (the caller checks the discard).
    pub fn record_meld(&mut self, meld: MeldRecord) -> (r: Result<(), HandStateError>)
        requires
            old(self).wf(),
        ensures
            final(self).wf(),
            (r, final(self)@) == spec_record_meld(old(self)@, meld@),
    {
        let len = meld.deck_indices.len();
        if len != meld.plaintexts.len() {
            return Err(HandStateError::SizeMismatch { got: meld.plaintexts.len(), expected: len });
        }
        let expected = meld.call_type.expected_indices_count();
        if len != expected {
            return Err(HandStateError::WrongCallSize { expected: meld.call_type, expected_count: expected, got: len });
        }
        if meld.from_position_in_meld >= len {
            return Err(HandStateError::FromPositionOutOfRange { pos: meld.from_position_in_meld, len });
        }
        match self.scan(meld.deck_indices.as_slice(), Some(meld.from_position_in_meld)) {
            Some(k) => {
                return Err(HandStateError::NotInHand { index: k });
            },
            None => {},
        }
        let ghost before = self@;
        let ghost mv = meld@;
        proof {
            lemma_meld_push_consistent(before, mv);
        }
        self.melds.push(meld);
        proof {
            assert(self@.melds =~= before.melds.push(mv));
            assert(self@ == HandView { melds: before.melds.push(mv), ..before });
        }
        Ok(())
    }

    // --- protocol 6: concealed kan ---

    /// Records a concealed kan: all four positions must be in the hand.
    pub fn record_concealed_kan(&mut self, kan: ConcealedKanRecord) -> (r: Result<(), HandStateError>)
        requires
            old(self).wf(),
        ensures
            final(self).wf(),
            (r, final(self)@) == spec_record_concealed_kan(old(self)@, kan),
    {
        match self.scan(&kan.deck_indices, None) {
            Some(k) => {
                return Err(HandStateError::NotInHand { index: k });
            },
            None => {},
        }
        let ghost before = self@;
        proof {
            lemma_kan_push_consistent(before, kan);
        }
        self.concealed_kans.push(kan);
        proof {
            assert(self@ == HandView { concealed_kans: before.concealed_kans.push(kan), ..before });
        }
        Ok(())
    }

    // --- added kan (shouminkan) ---

    /// Upgrades an existing pon to a kan with a drawn tile of the same kind.
    pub fn record_shouminkan(&mut self, target_meld_idx: usize, new_deck_index: usize, new_plaintext: Vec<u8>) -> (r: Result<(), HandStateError>)
        requires
            old(self).wf(),
        ensures
            final(self).wf(),
            (r, final(self)@) == spec_record_shouminkan(old(self)@, target_meld_idx, new_deck_index, new_plaintext@),
    {
        if target_meld_idx >= self.melds.len() {
            return Err(HandStateError::ShouminkanTargetOutOfRange { idx: target_meld_idx, len: self.melds.len() });
        }
        if !self.has_in_hand(new_deck_index) {
            return Err(HandStateError::NotInHand { index: new_deck_index });
        }
        let old_m = &self.melds[target_meld_idx];
        if old_m.call_type != CallType::Pon {
            return Err(HandStateError::ShouminkanNotPon { idx: target_meld_idx, actual: old_m.call_type });
        }
        if old_m.plaintexts.len() == 0 || !bytes_eq(old_m.plaintexts[0].as_slice(), new_plaintext.as_slice()) {
            return Err(HandStateError::ShouminkanPlaintextMismatch { idx: target_meld_idx });
        }
        let ghost before = self@;
        let ghost pt = new_plaintext@;
        let mut idxs = copy_usizes(&old_m.deck_indices);
        idxs.push(new_deck_index);
        let mut pts = copy_byte_list(&old_m.plaintexts);
        pts.push(new_plaintext);
        let nm = MeldRecord {
            call_type: CallType::Kan,
            deck_indices: idxs,
            plaintexts: pts,
            from_player: old_m.from_player,
            from_position_in_meld: old_m.from_position_in_meld,
        };
        proof {
            lemma_shouminkan_consistent(before, target_meld_idx, new_deck_index, pt);
            let m = before.melds[target_meld_idx as int];
            assert(views(nm.plaintexts@) =~= m.plaintexts.push(pt));
        }
        self.melds.set(target_meld_idx, nm);
        proof {
            let m = before.melds[target_meld_idx as int];
            let expect = HandView {
                melds: before.melds.update(target_meld_idx as int, MeldView {
                    call_type: CallType::Kan,
                    deck_indices: m.deck_indices.push(new_deck_index),
                    plaintexts: m.plaintexts.push(pt),
                    ..m
                }),
                ..before
            };
            assert(self@.melds =~= expect.melds);
            assert(self@ == expect);
        }
        Ok(())
    }
}


/// Every ledger that `new` and the recording operations produce (each keeps
/// `wf`, whether it succeeds or is refused) is consistent: every discarded
/// position, every position of a concealed kan and every own position of a
/// meld was drawn; no position is both discarded and kanned, both discarded
/// and own-melded, or both kanned and own-melded; no position is an own
/// position of two different melds; and no position belongs to two
/// different concealed kans.
pub proof fn law_ledger_consistent(h: HandState)
    requires
        h.wf(),
    ensures
        ledger_consistent(h@),
{
}

/// A ledger with nothing recorded.
pub open spec fn empty_hand() -> HandView {
    HandView {
        drawn: Map::empty(),
        discarded: Map::empty(),
        melds: Seq::empty(),
        concealed_kans: Seq::empty(),
    }
}

/// The whole table: one ledger per player, and the wall size.
///
/// Every player keeps one [`Table`] mirror and moves it with each protocol
/// event.
#[derive(Debug, Clone)]
pub struct Table {
    pub n_players: usize,
    pub wall_size: usize,
    pub hands: Vec<HandState>,
}

impl View for Table {
    type V = Seq<HandView>;

    /// The ledgers, seat by seat.
    open spec fn view(&self) -> Seq<HandView> {
        self.hands@.map_values(|h: HandState| h@)
    }
}

impl Table {
    /// One well-formed ledger per player.
    pub open spec fn wf(&self) -> bool {
        &&& self.hands@.len() == self.n_players
        &&& forall|i: int| 0 <= i < self.hands@.len() ==> (#[trigger] self.hands@[i]).wf()
    }

    pub fn new(n_players: usize, wall_size: usize) -> (r: Self)
        ensures
            r.wf(),
            r.n_players == n_players,
            r.wall_size == wall_size,
            forall|i: int| 0 <= i < n_players ==> (#[trigger] r.hands@[i])@ == empty_hand(),
            r@ == Seq::new(n_players as nat, |i: int| empty_hand()),
    {
        let mut hands: Vec<HandState> = Vec::new();
        let mut i: usize = 0;
        while i < n_players
            invariant
                i <= n_players,
                hands@.len() == i,
                forall|t: int| 0 <= t < i ==> (#[trigger] hands@[t]).wf() && hands@[t]@ == empty_hand(),
            decreases n_players - i,
        {
            let h = HandState::new();
            proof {
                assert(h@ =~= empty_hand());
            }
            hands.push(h);
            i = i + 1;
        }
        let r = Table { n_players, wall_size, hands };
        assert(r@ =~= Seq::new(n_players as nat, |i: int| empty_hand()));
        r
    }

    pub fn hand(&self, player: usize) -> (r: &HandState)
        requires
            player < self.hands@.len(),
        ensures
            *r == self.hands@[player as int],
    {
        &self.hands[player]
    }

    pub fn hand_mut(&mut self, player: usize) -> (r: &mut HandState)
        requires
            player < old(self).hands@.len(),
        ensures
            *r == old(self).hands@[player as int],
            final(self).hands@ == old(self).hands@.update(player as int, *final(r)),
            final(self).n_players == old(self).n_players,
            final(self).wall_size == old(self).wall_size,
    {
        &mut self.hands[player]
    }
}

// ---------------------------------------------------------------------------
// Mirrors in step
// ---------------------------------------------------------------------------

/// Two mirrors of one player's ledger agree on everything public: which
/// positions were drawn, the discards, the melds and the concealed kans. They
/// may differ in the drawn plaintexts, which only the drawing player knows.
pub open spec fn same_public(a: HandView, b: HandView) -> bool {
    &&& a.drawn.dom() == b.drawn.dom()
    &&& a.discarded == b.discarded
    &&& a.melds == b.melds
    &&& a.concealed_kans == b.concealed_kans
}

/// Two tables agree on everything public, seat by seat.
pub open spec fn same_public_tables(a: Seq<HandView>, b: Seq<HandView>) -> bool {
    a.len() == b.len() && forall|i: int| 0 <= i < a.len() ==> same_public(#[trigger] a[i], b[i])
}

proof fn lemma_in_hand_public(a: HandView, b: HandView, k: usize)
    requires
        same_public(a, b),
    ensures
        in_hand(a, k) == in_hand(b, k),
        is_melded(a, k) == is_melded(b, k),
        is_kanned(a, k) == is_kanned(b, k),
{
    assert(a.drawn.contains_key(k) == b.drawn.contains_key(k));
}

proof fn lemma_scan_public(a: HandView, b: HandView, idxs: Seq<usize>, skip: int, i: int)
    requires
        same_public(a, b),
    ensures
        scan_missing(a, idxs, skip, i) == scan_missing(b, idxs, skip, i),
    decreases idxs.len() - i,
{
    if 0 <= i < idxs.len() {
        lemma_in_hand_public(a, b, idxs[i]);
        lemma_scan_public(a, b, idxs, skip, i + 1);
    }
}

/// A draw recorded in two mirrors that agree publicly (one of them may know
/// the plaintext, the other not) is accepted or refused alike, and leaves
/// them agreeing.
pub proof fn law_draw_in_step(a: HandView, b: HandView, k: usize, pa: Option<Seq<u8>>, pb: Option<Seq<u8>>)
    requires
        same_public(a, b),
    ensures
        spec_record_draw(a, k, pa).0 == spec_record_draw(b, k, pb).0,
        same_public(spec_record_draw(a, k, pa).1, spec_record_draw(b, k, pb).1),
{
    assert(a.drawn.contains_key(k) == b.drawn.contains_key(k));
    assert(a.drawn.insert(k, pa).dom() =~= b.drawn.insert(k, pb).dom());
}

/// Discards, melds, concealed kans and added kans are accepted or refused
/// alike by mirrors that agree publicly, and leave them agreeing.
pub proof fn law_hand_moves_in_step(a: HandView, b: HandView, k: usize, pt: Seq<u8>, m: MeldView, kan: ConcealedKanRecord, target: usize)
    requires
        same_public(a, b),
    ensures
        spec_record_discard(a, k, pt).0 == spec_record_discard(b, k, pt).0,
        same_public(spec_record_discard(a, k, pt).1, spec_record_discard(b, k, pt).1),
        spec_record_meld(a, m).0 == spec_record_meld(b, m).0,
        same_public(spec_record_meld(a, m).1, spec_record_meld(b, m).1),
        spec_record_concealed_kan(a, kan).0 == spec_record_concealed_kan(b, kan).0,
        same_public(spec_record_concealed_kan(a, kan).1, spec_record_concealed_kan(b, kan).1),
        spec_record_shouminkan(a, target, k, pt).0 == spec_record_shouminkan(b, target, k, pt).0,
        same_public(spec_record_shouminkan(a, target, k, pt).1, spec_record_shouminkan(b, target, k, pt).1),
{
    lemma_in_hand_public(a, b, k);
    assert(a.drawn.contains_key(k) == b.drawn.contains_key(k));
    lemma_scan_public(a, b, m.deck_indices, m.from_position_in_meld as int, 0);
    lemma_scan_public(a, b, kan.deck_indices@, -1, 0);
}

} // verus!
