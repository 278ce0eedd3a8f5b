//! Fu and han scoring and the payments that follow a win.

use vstd::prelude::*;
use vstd::arithmetic::power2::{pow2, lemma2_to64};
use crate::domain::{is_dragon_kind, is_yaochuu_kind, Seat, Tile, TileIndex, seat_at, seat_index};

verus! {

/// A group of three or four tiles inside a closed hand decomposition.
#[derive(Debug, Clone, Copy, PartialEq, Eq, Structural)]
pub enum Mentsu {
    /// A run, identified by its lowest tile.
    Shuntsu(TileIndex),
    /// A triplet; the flag says whether it is concealed.
    Koutsu(TileIndex, bool),
    /// A quad; the flag says whether it is concealed.
    Kantsu(TileIndex, bool),
}

/// The shape of the wait that the winning tile completed.
#[derive(Debug, Clone, Copy, PartialEq, Eq, Structural)]
pub enum WaitKind {
    Ryanmen,
    Kanchan,
    Penchan,
    Tanki,
    Shanpon,
}

/// A winning hand split into its parts.
#[derive(Debug, Clone)]
pub enum Decomposition {
    /// Seven pairs.
    Chiitoitsu { pairs: Vec<TileIndex> },
    /// Thirteen orphans.
    Kokushi { pair: TileIndex },
    /// Four groups and a pair.
    Standard { mentsu: Vec<Mentsu>, pair: TileIndex, wait: WaitKind, winning_tile: TileIndex },
}

/// An open (or declared) meld.
#[derive(Debug, Clone, Copy, PartialEq, Eq)]
pub enum MeldKind {
    Chi { tiles: [Tile; 3] },
    Pon { tiles: [Tile; 3] },
    Minkan { tiles: [Tile; 4] },
    Shouminkan { tiles: [Tile; 4] },
    Ankan { tiles: [Tile; 4] },
}

/// A meld on the table.
#[derive(Debug, Clone, Copy, PartialEq, Eq)]
pub struct Meld {
    pub kind: MeldKind,
}

/// Scoring switches of the table rules.
#[derive(Debug, Clone, Copy, PartialEq, Eq, Structural)]
pub struct ScoringRules {
    /// 13 han or more without a yakuman counts as a (counted) yakuman.
    pub kazoe_yakuman: bool,
}

/// What the scorer needs to know about a win.
#[derive(Debug, Clone)]
pub struct WinContext {
    pub decomposition: Decomposition,
    /// No open melds.
    pub menzen: bool,
    pub is_tsumo: bool,
    pub round_wind: TileIndex,
    pub seat_wind: TileIndex,
    pub config: ScoringRules,
}

/// A scoring element found in a winning hand.
#[derive(Debug, Clone, Copy, PartialEq, Eq, Structural)]
pub enum Yaku {
    /// An ordinary yaku, by number.
    Regular(u32),
    /// A yakuman, by number.
    Yakuman(u32),
    /// Dora count.
    Dora(u32),
    /// Red five count.
    AkaDora(u32),
    /// Hidden dora count.
    UraDora(u32),
}

impl Yaku {
    pub fn is_yakuman(self) -> (r: bool)
        ensures
            r == (self is Yakuman),
    {
        match self {
            Yaku::Yakuman(_) => true,
            _ => false,
        }
    }
}

/// The limit reached by a hand.
#[derive(Debug, Clone, Copy, PartialEq, Eq, Structural)]
pub enum ScoreLevel {
    Normal,
    Mangan,
    Haneman,
    Baiman,
    Sanbaiman,
    KazoeYakuman,
    /// n-fold yakuman.
    Yakuman(u8),
}

#[derive(Debug, Clone)]
pub struct ScoreResult {
    pub han: u32,
    pub fu: u32,
    pub yaku: Vec<(Yaku, u32)>,
    pub base_points: u32,
    pub level: ScoreLevel,
}

#[derive(Debug, Clone, Copy, PartialEq, Eq, Structural)]
pub struct PaymentDistribution {
    pub from: Seat,
    pub to: Seat,
    pub amount: i32,
}

// ---------------------------------------------------------------------------
// fu
// ---------------------------------------------------------------------------

/// Fu of one concealed group of the decomposition. A triplet completed by a
/// ron on a double-pair wait counts as open.
pub open spec fn spec_mentsu_fu(m: Mentsu, is_tsumo: bool, wait: WaitKind, winning: TileIndex) -> int {
    match m {
        Mentsu::Shuntsu(_) => 0,
        Mentsu::Koutsu(t, true) => {
            let is_open = !is_tsumo && wait == WaitKind::Shanpon && t == winning;
            if is_yaochuu_kind(t.0) {
                if is_open { 4 } else { 8 }
            } else {
                if is_open { 2 } else { 4 }
            }
        },
        Mentsu::Koutsu(t, false) => if is_yaochuu_kind(t.0) { 4 } else { 2 },
        Mentsu::Kantsu(t, true) => if is_yaochuu_kind(t.0) { 32 } else { 16 },
        Mentsu::Kantsu(t, false) => if is_yaochuu_kind(t.0) { 16 } else { 8 },
    }
}

/// Fu of an open meld, by the kind of its first tile.
pub open spec fn spec_meld_fu(m: Meld) -> int {
    match m.kind {
        MeldKind::Chi { .. } => 0,
        MeldKind::Pon { tiles } => if is_yaochuu_kind(tiles[0].kind.0) { 4 } else { 2 },
        MeldKind::Minkan { tiles } => if is_yaochuu_kind(tiles[0].kind.0) { 16 } else { 8 },
        MeldKind::Shouminkan { tiles } => if is_yaochuu_kind(tiles[0].kind.0) { 16 } else { 8 },
        MeldKind::Ankan { tiles } => if is_yaochuu_kind(tiles[0].kind.0) { 32 } else { 16 },
    }
}

pub open spec fn sum_mentsu_fu(ms: Seq<Mentsu>, is_tsumo: bool, wait: WaitKind, winning: TileIndex) -> int
    decreases ms.len(),
{
    if ms.len() == 0 {
        0
    } else {
        sum_mentsu_fu(ms.drop_last(), is_tsumo, wait, winning) + spec_mentsu_fu(
            ms.last(),
            is_tsumo,
            wait,
            winning,
        )
    }
}

pub open spec fn sum_meld_fu(ms: Seq<Meld>) -> int
    decreases ms.len(),
{
    if ms.len() == 0 {
        0
    } else {
        sum_meld_fu(ms.drop_last()) + spec_meld_fu(ms.last())
    }
}

/// All groups are runs, the wait is two-sided and the pair gives no fu.
pub open spec fn spec_is_pinfu(ctx: WinContext, mentsu: Seq<Mentsu>, pair: TileIndex, wait: WaitKind) -> bool {
    &&& ctx.menzen
    &&& forall|i: int| 0 <= i < mentsu.len() ==> (#[trigger] mentsu[i]) is Shuntsu
    &&& wait == WaitKind::Ryanmen
    &&& !is_dragon_kind(pair.0)
    &&& pair != ctx.round_wind
    &&& pair != ctx.seat_wind
}

/// Fu of the pair: 2 for a dragon, 2 for a value wind, 4 for a double wind.
pub open spec fn spec_pair_fu(ctx: WinContext, pair: TileIndex) -> int {
    (if is_dragon_kind(pair.0) { 2int } else { 0int }) + (if pair == ctx.round_wind && pair
        == ctx.seat_wind {
        4int
    } else if pair == ctx.round_wind || pair == ctx.seat_wind {
        2int
    } else {
        0int
    })
}

/// Fu before rounding for a standard decomposition that is not pinfu:
/// 20 base, 2 for tsumo, 10 for a concealed ron, the pair, 2 for a one-sided
/// wait, and the groups and melds.
pub open spec fn spec_raw_fu(
    ctx: WinContext,
    mentsu: Seq<Mentsu>,
    pair: TileIndex,
    wait: WaitKind,
    winning: TileIndex,
    melds: Seq<Meld>,
) -> int {
    20 + (if ctx.is_tsumo { 2int } else { 0int }) + (if !ctx.is_tsumo && ctx.menzen {
        10int
    } else {
        0int
    }) + spec_pair_fu(ctx, pair) + (if wait == WaitKind::Tanki || wait == WaitKind::Kanchan
        || wait == WaitKind::Penchan {
        2int
    } else {
        0int
    }) + sum_mentsu_fu(mentsu, ctx.is_tsumo, wait, winning) + sum_meld_fu(melds)
}

/// The least multiple of ten that is not below `n` (for `n >= 0`).
pub open spec fn round_up_10(n: int) -> int {
    ((n + 9) / 10) * 10
}

/// The fu of a win.
pub open spec fn spec_fu(d: Decomposition, ctx: WinContext, melds: Seq<Meld>) -> int {
    match d {
        Decomposition::Chiitoitsu { .. } => 25,
        Decomposition::Kokushi { .. } => 30,
        Decomposition::Standard { mentsu, pair, wait, winning_tile } => {
            if spec_is_pinfu(ctx, mentsu@, pair, wait) {
                if ctx.is_tsumo { 20 } else { 30 }
            } else {
                round_up_10(spec_raw_fu(ctx, mentsu@, pair, wait, winning_tile, melds))
            }
        },
    }
}

/// The fu count fits in a `u32` without overflowing along the way.
pub open spec fn fu_fits(d: Decomposition, ctx: WinContext, melds: Seq<Meld>) -> bool {
    match d {
        Decomposition::Standard { mentsu, pair, wait, winning_tile } => spec_is_pinfu(
            ctx,
            mentsu@,
            pair,
            wait,
        ) || spec_raw_fu(ctx, mentsu@, pair, wait, winning_tile, melds) + 9 <= u32::MAX,
        _ => true,
    }
}

proof fn lemma_mentsu_fu_bounds(m: Mentsu, is_tsumo: bool, wait: WaitKind, winning: TileIndex)
    ensures
        0 <= spec_mentsu_fu(m, is_tsumo, wait, winning) <= 32,
{
}

proof fn lemma_sum_mentsu_prefix(ms: Seq<Mentsu>, i: int, is_tsumo: bool, wait: WaitKind, winning: TileIndex)
    requires
        0 <= i <= ms.len(),
    ensures
        0 <= sum_mentsu_fu(ms.take(i), is_tsumo, wait, winning) <= sum_mentsu_fu(ms, is_tsumo, wait, winning),
    decreases ms.len(),
{
    if ms.len() > 0 {
        lemma_mentsu_fu_bounds(ms.last(), is_tsumo, wait, winning);
        if i == ms.len() {
            assert(ms.take(i) =~= ms);
            lemma_sum_mentsu_prefix(ms.drop_last(), i - 1, is_tsumo, wait, winning);
        } else {
            assert(ms.take(i) =~= ms.drop_last().take(i));
            lemma_sum_mentsu_prefix(ms.drop_last(), i, is_tsumo, wait, winning);
        }
    }
}

proof fn lemma_sum_meld_prefix(ms: Seq<Meld>, i: int)
    requires
        0 <= i <= ms.len(),
    ensures
        0 <= sum_meld_fu(ms.take(i)) <= sum_meld_fu(ms),
    decreases ms.len(),
{
    if ms.len() > 0 {
        if i == ms.len() {
            assert(ms.take(i) =~= ms);
            lemma_sum_meld_prefix(ms.drop_last(), i - 1);
        } else {
            assert(ms.take(i) =~= ms.drop_last().take(i));
            lemma_sum_meld_prefix(ms.drop_last(), i);
        }
    }
}

/// Fu of a win: the decomposition that was settled on, the circumstances of
/// the win, and the open melds.
pub fn calculate_fu(d: &Decomposition, ctx: &WinContext, melds: &[Meld]) -> (fu: u32)
    requires
        fu_fits(*d, *ctx, melds@),
    ensures
        fu == spec_fu(*d, *ctx, melds@),
{
    match d {
        Decomposition::Chiitoitsu { .. } => 25,
        Decomposition::Kokushi { .. } => 30,
        Decomposition::Standard { mentsu, pair, wait, winning_tile } => {
            let mut all_shuntsu = true;
            let mut k: usize = 0;
            while k < mentsu.len()
                invariant
                    k <= mentsu@.len(),
                    all_shuntsu == (forall|t: int| 0 <= t < k ==> (#[trigger] mentsu@[t]) is Shuntsu),
                decreases mentsu@.len() - k,
            {
                match mentsu[k] {
                    Mentsu::Shuntsu(_) => {},
                    _ => {
                        all_shuntsu = false;
                    },
                }
                k = k + 1;
            }
            let is_pinfu = ctx.menzen && all_shuntsu && *wait == WaitKind::Ryanmen
                && !pair.is_dragon() && *pair != ctx.round_wind && *pair != ctx.seat_wind;
            assert(is_pinfu == spec_is_pinfu(*ctx, mentsu@, *pair, *wait));
            if is_pinfu && ctx.is_tsumo {
                return 20;
            }
            if is_pinfu && !ctx.is_tsumo {
                return 30;
            }
            let ghost total = spec_raw_fu(*ctx, mentsu@, *pair, *wait, *winning_tile, melds@);
            proof {
                lemma_sum_mentsu_prefix(mentsu@, 0, ctx.is_tsumo, *wait, *winning_tile);
                lemma_sum_meld_prefix(melds@, 0);
            }
            let mut fu: u32 = 20;
            if ctx.is_tsumo {
                fu += 2;
            }
            if !ctx.is_tsumo && ctx.menzen {
                fu += 10;
            }
            if pair.is_dragon() {
                fu += 2;
            }
            if *pair == ctx.round_wind && *pair == ctx.seat_wind {
                fu += 4;
            } else if *pair == ctx.round_wind || *pair == ctx.seat_wind {
                fu += 2;
            }
            match wait {
                WaitKind::Tanki | WaitKind::Kanchan | WaitKind::Penchan => fu += 2,
                _ => {},
            }
            let ghost head = fu as int;
            assert(head + sum_mentsu_fu(mentsu@, ctx.is_tsumo, *wait, *winning_tile)
                + sum_meld_fu(melds@) == total);
            let mut i: usize = 0;
            while i < mentsu.len()
                invariant
                    i <= mentsu@.len(),
                    fu as int == head + sum_mentsu_fu(mentsu@.take(i as int), ctx.is_tsumo, *wait, *winning_tile),
                    head + sum_mentsu_fu(mentsu@, ctx.is_tsumo, *wait, *winning_tile)
                        + sum_meld_fu(melds@) == total,
                    total + 9 <= u32::MAX,
                    0 <= sum_meld_fu(melds@),
                decreases mentsu@.len() - i,
            {
                proof {
                    assert(mentsu@.take(i + 1).drop_last() =~= mentsu@.take(i as int));
                    lemma_sum_mentsu_prefix(mentsu@, i + 1, ctx.is_tsumo, *wait, *winning_tile);
                }
                fu += mentsu_fu(&mentsu[i], ctx, *wait, *winning_tile);
                i = i + 1;
            }
            assert(mentsu@.take(mentsu@.len() as int) =~= mentsu@);
            let mut j: usize = 0;
            while j < melds.len()
                invariant
                    j <= melds@.len(),
                    fu as int == head + sum_mentsu_fu(mentsu@, ctx.is_tsumo, *wait, *winning_tile)
                        + sum_meld_fu(melds@.take(j as int)),
                    head + sum_mentsu_fu(mentsu@, ctx.is_tsumo, *wait, *winning_tile)
                        + sum_meld_fu(melds@) == total,
                    total + 9 <= u32::MAX,
                decreases melds@.len() - j,
            {
                proof {
                    assert(melds@.take(j + 1).drop_last() =~= melds@.take(j as int));
                    lemma_sum_meld_prefix(melds@, j + 1);
                }
                fu += meld_fu(&melds[j]);
                j = j + 1;
            }
            assert(melds@.take(melds@.len() as int) =~= melds@);
            (fu + 9) / 10 * 10
        },
    }
}

fn mentsu_fu(m: &Mentsu, ctx: &WinContext, wait: WaitKind, winning: TileIndex) -> (r: u32)
    ensures
        r == spec_mentsu_fu(*m, ctx.is_tsumo, wait, winning),
{
    match m {
        Mentsu::Shuntsu(_) => 0,
        Mentsu::Koutsu(t, true) => {
            let is_open = !ctx.is_tsumo && wait == WaitKind::Shanpon && *t == winning;
            let yaochuu = t.is_yaochuu();
            match (is_open, yaochuu) {
                (false, true) => 8,
                (false, false) => 4,
                (true, true) => 4,
                (true, false) => 2,
            }
        },
        Mentsu::Koutsu(t, false) => {
            if t.is_yaochuu() {
                4
            } else {
                2
            }
        },
        Mentsu::Kantsu(t, true) => {
            if t.is_yaochuu() {
                32
            } else {
                16
            }
        },
        Mentsu::Kantsu(t, false) => {
            if t.is_yaochuu() {
                16
            } else {
                8
            }
        },
    }
}

fn meld_fu(m: &Meld) -> (r: u32)
    ensures
        r == spec_meld_fu(*m),
{
    match &m.kind {
        MeldKind::Chi { .. } => 0,
        MeldKind::Pon { tiles } => {
            if tiles[0].kind.is_yaochuu() {
                4
            } else {
                2
            }
        },
        MeldKind::Minkan { tiles } | MeldKind::Shouminkan { tiles } => {
            if tiles[0].kind.is_yaochuu() {
                16
            } else {
                8
            }
        },
        MeldKind::Ankan { tiles } => {
            if tiles[0].kind.is_yaochuu() {
                32
            } else {
                16
            }
        },
    }
}

// ---------------------------------------------------------------------------
// base points and rounding
// ---------------------------------------------------------------------------

/// Base points: fu × 2^(han+2), capped at 2000 (mangan); 6-7 han is
/// haneman (3000), 8-10 baiman (4000), 11-12 sanbaiman (6000), 13+ 8000.
/// 5 han, 4 han with 40 fu or more, and 3 han with 70 fu or more are mangan.
pub open spec fn spec_base_points(han: u32, fu: u32) -> int {
    if han >= 13 {
        8000
    } else if han >= 11 {
        6000
    } else if han >= 8 {
        4000
    } else if han >= 6 {
        3000
    } else if han == 5 || (han == 4 && fu >= 40) || (han == 3 && fu >= 70) {
        2000
    } else {
        let raw = fu * pow2((han + 2) as nat);
        if raw < 2000 { raw } else { 2000 }
    }
}

/// The product fu × 2^(han+2) fits in a `u32` where it is computed.
pub open spec fn base_points_fits(han: u32, fu: u32) -> bool {
    han >= 3 || fu * pow2((han + 2) as nat) <= u32::MAX
}

pub fn base_points(han: u32, fu: u32) -> (r: u32)
    requires
        base_points_fits(han, fu),
    ensures
        r == spec_base_points(han, fu),
        r <= 8000,
{
    if han >= 13 {
        return 8000;
    }
    if han >= 11 {
        return 6000;
    }
    if han >= 8 {
        return 4000;
    }
    if han >= 6 {
        return 3000;
    }
    if han == 5 || (han == 4 && fu >= 40) || (han == 3 && fu >= 70) {
        return 2000;
    }
    proof {
        lemma2_to64();
    }
    let shift: u32 = han + 2;
    let factor: u32 = 1u32 << shift;
    proof {
        if han == 0 {
            assert(1u32 << 2u32 == 4u32) by (bit_vector);
        } else if han == 1 {
            assert(1u32 << 3u32 == 8u32) by (bit_vector);
        } else if han == 2 {
            assert(1u32 << 4u32 == 16u32) by (bit_vector);
        } else if han == 3 {
            assert(1u32 << 5u32 == 32u32) by (bit_vector);
        } else {
            assert(1u32 << 6u32 == 64u32) by (bit_vector);
        }
        assert(factor == pow2(shift as nat));
        assert(fu * factor <= u32::MAX) by (nonlinear_arith)
            requires
                han >= 3 ==> ((han == 3 && fu < 70) || (han == 4 && fu < 40)),
                han == 3 ==> factor == 32,
                han == 4 ==> factor == 64,
                han < 3 ==> fu * factor <= u32::MAX,
                han <= 4,
        ;
    }
    let raw = fu * factor;
    if raw < 2000 {
        raw
    } else {
        2000
    }
}

/// The least multiple of 100 that is not below `n`; 0 for `n <= 0`.
pub open spec fn spec_ceil_100(n: int) -> int {
    if n <= 0 {
        0
    } else {
        ((n + 99) / 100) * 100
    }
}

pub fn ceil_to_100(n: i32) -> (r: i32)
    requires
        n <= i32::MAX - 99,
    ensures
        r == spec_ceil_100(n as int),
        n <= 0 ==> r == 0,
        n > 0 ==> r % 100 == 0 && n <= r < n + 100,
{
    if n <= 0 {
        return 0;
    }
    ((n + 99) / 100) * 100
}

// ---------------------------------------------------------------------------
// evaluation
// ---------------------------------------------------------------------------

pub open spec fn is_dora_like(y: Yaku) -> bool {
    y is Dora || y is AkaDora || y is UraDora
}

/// At least one element that is not a dora count.
pub open spec fn has_real_yaku(yaku: Seq<(Yaku, u32)>) -> bool {
    exists|i: int| 0 <= i < yaku.len() && !is_dora_like(#[trigger] yaku[i].0)
}

/// Total han.
pub open spec fn han_sum(yaku: Seq<(Yaku, u32)>) -> int
    decreases yaku.len(),
{
    if yaku.len() == 0 {
        0
    } else {
        han_sum(yaku.drop_last()) + yaku.last().1
    }
}

/// Number of yakuman: each yakuman element counts han / 13 (as a byte).
pub open spec fn yakuman_sum(yaku: Seq<(Yaku, u32)>) -> int
    decreases yaku.len(),
{
    if yaku.len() == 0 {
        0
    } else {
        yakuman_sum(yaku.drop_last()) + if yaku.last().0 is Yakuman {
            ((yaku.last().1 / 13) as u8) as int
        } else {
            0int
        }
    }
}

proof fn lemma_sums_prefix(yaku: Seq<(Yaku, u32)>, i: int)
    requires
        0 <= i <= yaku.len(),
    ensures
        0 <= han_sum(yaku.take(i)) <= han_sum(yaku),
        0 <= yakuman_sum(yaku.take(i)) <= yakuman_sum(yaku),
    decreases yaku.len(),
{
    if yaku.len() > 0 {
        if i == yaku.len() {
            assert(yaku.take(i) =~= yaku);
            lemma_sums_prefix(yaku.drop_last(), i - 1);
        } else {
            assert(yaku.take(i) =~= yaku.drop_last().take(i));
            lemma_sums_prefix(yaku.drop_last(), i);
        }
    }
}

/// Base points and limit of a hand with `yakuman` yakuman, `han` han and
/// `fu` fu.
pub open spec fn spec_limit(yakuman: int, han: u32, fu: u32, kazoe: bool) -> (int, ScoreLevel) {
    if yakuman > 0 {
        (8000 * yakuman, ScoreLevel::Yakuman(yakuman as u8))
    } else if han >= 13 && kazoe {
        (8000, ScoreLevel::KazoeYakuman)
    } else if han >= 11 {
        (6000, ScoreLevel::Sanbaiman)
    } else if han >= 8 {
        (4000, ScoreLevel::Baiman)
    } else if han >= 6 {
        (3000, ScoreLevel::Haneman)
    } else if han >= 5 || (han == 4 && fu >= 40) || (han == 3 && fu >= 70) {
        (2000, ScoreLevel::Mangan)
    } else {
        (spec_base_points(han, fu), ScoreLevel::Normal)
    }
}

/// The sums and the fu of a win with a real yaku fit their machine types.
pub open spec fn evaluate_fits(ctx: WinContext, melds: Seq<Meld>, yaku: Seq<(Yaku, u32)>) -> bool {
    has_real_yaku(yaku) ==> {
        &&& han_sum(yaku) <= u32::MAX
        &&& yakuman_sum(yaku) <= u8::MAX
        &&& fu_fits(ctx.decomposition, ctx, melds)
        &&& base_points_fits(han_sum(yaku) as u32, spec_fu(ctx.decomposition, ctx, melds) as u32)
    }
}

/// Scores a win from the yaku found in it: `None` when there is no yaku
/// other than dora; otherwise the total han, the fu, the base points and the
/// limit reached.
pub fn evaluate(ctx: &WinContext, melds: &[Meld], yaku: Vec<(Yaku, u32)>) -> (r: Option<ScoreResult>)
    requires
        evaluate_fits(*ctx, melds@, yaku@),
    ensures
        r is None <==> !has_real_yaku(yaku@),
        r matches Some(res) ==> {
            let fu = spec_fu(ctx.decomposition, *ctx, melds@);
            let lim = spec_limit(yakuman_sum(yaku@), han_sum(yaku@) as u32, fu as u32, ctx.config.kazoe_yakuman);
            &&& res.han == han_sum(yaku@)
            &&& res.fu == fu
            &&& res.yaku@ == yaku@
            &&& res.base_points == lim.0
            &&& res.level == lim.1
        },
{
    if yaku.len() == 0 {
        return None;
    }
    let mut has_real = false;
    let mut i: usize = 0;
    while i < yaku.len()
        invariant
            i <= yaku@.len(),
            has_real == exists|t: int| 0 <= t < i && !is_dora_like(#[trigger] yaku@[t].0),
        decreases yaku@.len() - i,
    {
        let is_dora = match yaku[i].0 {
            Yaku::Dora(_) | Yaku::AkaDora(_) | Yaku::UraDora(_) => true,
            _ => false,
        };
        if !is_dora {
            has_real = true;
        }
        i = i + 1;
        proof {
            if !is_dora {
                assert(!is_dora_like(yaku@[i - 1].0));
            }
        }
    }
    if !has_real {
        return None;
    }
    proof {
        lemma_sums_prefix(yaku@, 0);
    }
    let mut yakuman_count: u8 = 0;
    let mut han: u32 = 0;
    let mut k: usize = 0;
    while k < yaku.len()
        invariant
            k <= yaku@.len(),
            yakuman_count == yakuman_sum(yaku@.take(k as int)),
            han == han_sum(yaku@.take(k as int)),
            han_sum(yaku@) <= u32::MAX,
            yakuman_sum(yaku@) <= u8::MAX,
        decreases yaku@.len() - k,
    {
        proof {
            assert(yaku@.take(k + 1).drop_last() =~= yaku@.take(k as int));
            lemma_sums_prefix(yaku@, k + 1);
        }
        let (y, h) = yaku[k];
        if y.is_yakuman() {
            yakuman_count = yakuman_count + (h / 13) as u8;
        }
        han = han + h;
        k = k + 1;
    }
    assert(yaku@.take(yaku@.len() as int) =~= yaku@);
    let fu = calculate_fu(&ctx.decomposition, ctx, melds);
    let (base, level) = if yakuman_count > 0 {
        (8000 * yakuman_count as u32, ScoreLevel::Yakuman(yakuman_count))
    } else if han >= 13 && ctx.config.kazoe_yakuman {
        (8000, ScoreLevel::KazoeYakuman)
    } else if han >= 11 {
        (6000, ScoreLevel::Sanbaiman)
    } else if han >= 8 {
        (4000, ScoreLevel::Baiman)
    } else if han >= 6 {
        (3000, ScoreLevel::Haneman)
    } else if han >= 5 || (han == 4 && fu >= 40) || (han == 3 && fu >= 70) {
        (2000, ScoreLevel::Mangan)
    } else {
        (base_points(han, fu), ScoreLevel::Normal)
    };
    Some(ScoreResult { han, fu, yaku, base_points: base, level })
}

// ---------------------------------------------------------------------------
// payments
// ---------------------------------------------------------------------------

/// What seat `s` pays a tsumo winner: twice the base when the dealer wins
/// or `s` is the dealer, the base otherwise, rounded up to 100, plus 100 per
/// honba.
pub open spec fn tsumo_share(s: Seat, winner: Seat, dealer: Seat, base: int, honba: int) -> int {
    (if winner == dealer || s == dealer {
        spec_ceil_100(2 * base)
    } else {
        spec_ceil_100(base)
    }) + 100 * honba
}

/// The tsumo payments of the seats with index below `k`, in seat order,
/// skipping the winner.
pub open spec fn tsumo_payments(k: nat, winner: Seat, dealer: Seat, base: int, honba: int) -> Seq<PaymentDistribution>
    decreases k,
{
    if k == 0 {
        Seq::empty()
    } else {
        let prev = tsumo_payments((k - 1) as nat, winner, dealer, base, honba);
        let s = seat_at(k - 1);
        if s == winner {
            prev
        } else {
            prev.push(PaymentDistribution { from: s, to: winner, amount: tsumo_share(s, winner, dealer, base, honba) as i32 })
        }
    }
}

/// The payments of a win: on tsumo every other seat pays its share; on ron
/// the player who dealt in pays 6 (dealer) or 4 times the base, rounded up
/// to 100, plus 300 per honba; riichi sticks go to the winner at 1000 each.
pub open spec fn spec_distribute(
    base: int,
    winner: Seat,
    dealer: Seat,
    is_tsumo: bool,
    ronned: Option<Seat>,
    honba: int,
    riichi_sticks: int,
) -> Seq<PaymentDistribution> {
    let main = if is_tsumo {
        tsumo_payments(4, winner, dealer, base, honba)
    } else {
        match ronned {
            Some(loser) => seq![PaymentDistribution { from: loser, to: winner, amount: (spec_ceil_100((if winner == dealer { 6int } else { 4int }) * base) + 300 * honba) as i32 }],
            None => Seq::empty(),
        }
    };
    if riichi_sticks > 0 {
        main.push(PaymentDistribution { from: winner, to: winner, amount: (riichi_sticks * 1000) as i32 })
    } else {
        main
    }
}

/// The amounts of [`distribute`] fit an `i32`.
pub open spec fn distribute_fits(
    base: int,
    winner: Seat,
    dealer: Seat,
    is_tsumo: bool,
    ronned: Option<Seat>,
    honba: int,
    riichi_sticks: int,
) -> bool {
    &&& 300 * honba <= i32::MAX
    &&& 1000 * riichi_sticks <= i32::MAX
    &&& is_tsumo ==> 2 * base + 99 + 100 * honba <= i32::MAX
    &&& (!is_tsumo && ronned is Some) ==> (if winner == dealer { 6int } else { 4int }) * base + 99 + 300 * honba <= i32::MAX
}

proof fn lemma_ceil_bounds(n: int)
    ensures
        spec_ceil_100(n) <= if n <= 0 { 0 } else { n + 99 },
        0 <= spec_ceil_100(n),
{
}

/// Payments after a win, from the result and the table situation (dealer,
/// tsumo, who dealt in, honba, riichi sticks on the table).
pub fn distribute(
    result: &ScoreResult,
    winner: Seat,
    dealer: Seat,
    is_tsumo: bool,
    ronned: Option<Seat>,
    honba: u32,
    riichi_sticks: u32,
) -> (out: Vec<PaymentDistribution>)
    requires
        distribute_fits(result.base_points as int, winner, dealer, is_tsumo, ronned, honba as int, riichi_sticks as int),
    ensures
        out@ == spec_distribute(result.base_points as int, winner, dealer, is_tsumo, ronned, honba as int, riichi_sticks as int),
{
    let ghost b = result.base_points as int;
    let mut out: Vec<PaymentDistribution> = Vec::new();
    let is_dealer_win = winner == dealer;
    let base = result.base_points as i32;
    let honba_per = honba as i32 * 100;
    let honba_total = honba as i32 * 300;
    if is_tsumo {
        proof {
            lemma_ceil_bounds(2 * b);
            lemma_ceil_bounds(b);
        }
        let mut i: usize = 0;
        while i < 4
            invariant
                i <= 4,
                out@ == tsumo_payments(i as nat, winner, dealer, b, honba as int),
                base == b,
                honba_per == 100 * honba,
                is_dealer_win == (winner == dealer),
                2 * b + 99 + 100 * honba <= i32::MAX,
                0 <= b,
            decreases 4 - i,
        {
            let s = Seat::from_index(i);
            if s != winner {
                let amount = if is_dealer_win || s == dealer {
                    ceil_to_100(2 * base) + honba_per
                } else {
                    ceil_to_100(base) + honba_per
                };
                out.push(PaymentDistribution { from: s, to: winner, amount });
            }
            i = i + 1;
        }
    } else if let Some(loser) = ronned {
        let mult: i32 = if is_dealer_win { 6 } else { 4 };
        proof {
            lemma_ceil_bounds(mult * b);
        }
        let amount = ceil_to_100(mult * base) + honba_total;
        out.push(PaymentDistribution { from: loser, to: winner, amount });
    }
    if riichi_sticks > 0 {
        out.push(PaymentDistribution { from: winner, to: winner, amount: riichi_sticks as i32 * 1000 });
    }
    proof {
        if !is_tsumo {
            match ronned {
                Some(l) => {},
                None => {
                    assert(out@.len() == 0 || riichi_sticks > 0);
                },
            }
        }
    }
    out
}

/// The sum of the amounts of a list of payments.
pub open spec fn total_amount(ps: Seq<PaymentDistribution>) -> int
    decreases ps.len(),
{
    if ps.len() == 0 {
        0
    } else {
        total_amount(ps.drop_last()) + ps.last().amount
    }
}

/// A tsumo by the dealer collects twice the base (rounded up to 100) plus
/// 100 per honba from each of the three other seats; a tsumo by another
/// seat collects twice the base from the dealer and the base from each of
/// the other two, each rounded up to 100, plus 300 per honba in all. Every
/// payment goes to the winner and no seat pays itself.
pub proof fn law_tsumo_total(winner: Seat, dealer: Seat, base: int, honba: int)
    requires
        0 <= base,
        0 <= honba,
        2 * base + 99 + 100 * honba <= i32::MAX,
    ensures
        ({
            let ps = tsumo_payments(4, winner, dealer, base, honba);
            &&& ps.len() == 3
            &&& forall|i: int| 0 <= i < 3 ==> (#[trigger] ps[i]).to == winner && ps[i].from != winner
            &&& total_amount(ps) == if winner == dealer {
                3 * (spec_ceil_100(2 * base) + 100 * honba)
            } else {
                spec_ceil_100(2 * base) + 2 * spec_ceil_100(base) + 300 * honba
            }
        }),
{
    lemma_ceil_bounds(2 * base);
    lemma_ceil_bounds(base);
    let hi = spec_ceil_100(2 * base) + 100 * honba;
    let lo = spec_ceil_100(base) + 100 * honba;
    assert(hi as i32 == hi);
    assert(lo as i32 == lo);
    reveal_with_fuel(tsumo_payments, 5);
    let ps = tsumo_payments(4, winner, dealer, base, honba);
    assert(ps.len() == 3);
    assert(ps.drop_last().drop_last().drop_last() =~= Seq::<PaymentDistribution>::empty());
    reveal_with_fuel(total_amount, 4);
    assert(total_amount(ps) == ps[0].amount + ps[1].amount + ps[2].amount);
}

/// Adding an open meld raises the raw fu by what its kind is worth: a chi
/// nothing, a pon 4 (terminal or honour) or 2, an open or added kan 16 or 8,
/// a concealed kan 32 or 16.
pub proof fn law_meld_fu_by_kind(
    ctx: WinContext,
    mentsu: Seq<Mentsu>,
    pair: TileIndex,
    wait: WaitKind,
    winning: TileIndex,
    melds: Seq<Meld>,
    m: Meld,
)
    ensures
        ({
            let before = spec_raw_fu(ctx, mentsu, pair, wait, winning, melds);
            let after = spec_raw_fu(ctx, mentsu, pair, wait, winning, melds.push(m));
            &&& (m.kind is Chi ==> after == before)
            &&& (m.kind matches MeldKind::Pon { tiles } ==> after == before + if is_yaochuu_kind(tiles[0].kind.0) { 4int } else { 2int })
            &&& (m.kind matches MeldKind::Minkan { tiles } ==> after == before + if is_yaochuu_kind(tiles[0].kind.0) { 16int } else { 8int })
            &&& (m.kind matches MeldKind::Shouminkan { tiles } ==> after == before + if is_yaochuu_kind(tiles[0].kind.0) { 16int } else { 8int })
            &&& (m.kind matches MeldKind::Ankan { tiles } ==> after == before + if is_yaochuu_kind(tiles[0].kind.0) { 32int } else { 16int })
        }),
{
    assert(melds.push(m).drop_last() =~= melds);
}

/// A group of the closed decomposition adds to the raw fu by its kind: a run
/// nothing; a concealed triplet 8 (terminal or honour) or 4, counted as open
/// (4 or 2) when it was completed by a ron on a double-pair wait with its own
/// tile; an open triplet 4 or 2; a concealed quad 32 or 16; an open quad 16
/// or 8.
pub proof fn law_mentsu_fu_by_kind(
    ctx: WinContext,
    mentsu: Seq<Mentsu>,
    pair: TileIndex,
    wait: WaitKind,
    winning: TileIndex,
    melds: Seq<Meld>,
    m: Mentsu,
)
    ensures
        ({
            let before = spec_raw_fu(ctx, mentsu, pair, wait, winning, melds);
            let after = spec_raw_fu(ctx, mentsu.push(m), pair, wait, winning, melds);
            let ron_on_shanpon = !ctx.is_tsumo && wait == WaitKind::Shanpon;
            &&& (m is Shuntsu ==> after == before)
            &&& (m matches Mentsu::Koutsu(t, true) ==> after == before + if ron_on_shanpon && t == winning {
                if is_yaochuu_kind(t.0) { 4int } else { 2int }
            } else {
                if is_yaochuu_kind(t.0) { 8int } else { 4int }
            })
            &&& (m matches Mentsu::Koutsu(t, false) ==> after == before + if is_yaochuu_kind(t.0) { 4int } else { 2int })
            &&& (m matches Mentsu::Kantsu(t, true) ==> after == before + if is_yaochuu_kind(t.0) { 32int } else { 16int })
            &&& (m matches Mentsu::Kantsu(t, false) ==> after == before + if is_yaochuu_kind(t.0) { 16int } else { 8int })
        }),
{
    assert(mentsu.push(m).drop_last() =~= mentsu);
}

/// The fixed parts of the raw fu: 20 to start with, 2 more for a tsumo and
/// 10 more for a ron with a closed hand; 2 for a one-sided wait (single,
/// closed or edge) and none for a two-sided or double-pair wait; a dragon
/// pair 2, a pair of the round or seat wind 2, of a wind that is both 4.
pub proof fn law_raw_fu_fixed_parts(ctx: WinContext, pair: TileIndex, wait: WaitKind, winning: TileIndex)
    ensures
        ({
            let raw = spec_raw_fu(ctx, Seq::empty(), pair, wait, winning, Seq::empty());
            let win_part = if ctx.is_tsumo { 2int } else if ctx.menzen { 10int } else { 0int };
            let wait_part = if wait == WaitKind::Tanki || wait == WaitKind::Kanchan || wait == WaitKind::Penchan {
                2int
            } else {
                0int
            };
            let dragon_part = if is_dragon_kind(pair.0) { 2int } else { 0int };
            let wind_part = if pair == ctx.round_wind && pair == ctx.seat_wind {
                4int
            } else if pair == ctx.round_wind || pair == ctx.seat_wind {
                2int
            } else {
                0int
            };
            &&& raw == 20 + win_part + wait_part + dragon_part + wind_part
        }),
{
}

/// Fixed fu of the special shapes: seven pairs 25, thirteen orphans 30, a
/// pinfu hand 20 on tsumo and 30 on ron; any other standard hand rounds its
/// raw fu up to a multiple of ten.
pub proof fn law_fu_shapes(d: Decomposition, ctx: WinContext, melds: Seq<Meld>)
    ensures
        d is Chiitoitsu ==> spec_fu(d, ctx, melds) == 25,
        d is Kokushi ==> spec_fu(d, ctx, melds) == 30,
        d matches Decomposition::Standard { mentsu, pair, wait, winning_tile } ==> {
            let raw = spec_raw_fu(ctx, mentsu@, pair, wait, winning_tile, melds);
            if spec_is_pinfu(ctx, mentsu@, pair, wait) {
                spec_fu(d, ctx, melds) == if ctx.is_tsumo { 20int } else { 30int }
            } else {
                &&& spec_fu(d, ctx, melds) % 10 == 0
                &&& (raw >= 0 ==> raw <= spec_fu(d, ctx, melds) < raw + 10)
            }
        },
{
    if let Decomposition::Standard { mentsu, pair, wait, winning_tile } = d {
        let raw = spec_raw_fu(ctx, mentsu@, pair, wait, winning_tile, melds);
        assert(((raw + 9) / 10) * 10 % 10 == 0) by (nonlinear_arith);
        assert(raw >= 0 ==> raw <= ((raw + 9) / 10) * 10 < raw + 10) by (nonlinear_arith);
    }
}

/// Declaring a kan where a pon of the same tile would stand raises the raw
/// fu: an open or added kan by 12 (terminal or honour) or 6, a concealed kan
/// by 28 or 14.
pub proof fn law_kan_outscores_pon(
    ctx: WinContext,
    mentsu: Seq<Mentsu>,
    pair: TileIndex,
    wait: WaitKind,
    winning: TileIndex,
    melds: Seq<Meld>,
    pon: [Tile; 3],
    kan: [Tile; 4],
)
    requires
        pon[0].kind == kan[0].kind,
    ensures
        ({
            let with_pon = spec_raw_fu(ctx, mentsu, pair, wait, winning, melds.push(Meld { kind: MeldKind::Pon { tiles: pon } }));
            let with_minkan = spec_raw_fu(ctx, mentsu, pair, wait, winning, melds.push(Meld { kind: MeldKind::Minkan { tiles: kan } }));
            let with_added = spec_raw_fu(ctx, mentsu, pair, wait, winning, melds.push(Meld { kind: MeldKind::Shouminkan { tiles: kan } }));
            let with_ankan = spec_raw_fu(ctx, mentsu, pair, wait, winning, melds.push(Meld { kind: MeldKind::Ankan { tiles: kan } }));
            &&& with_minkan - with_pon == if is_yaochuu_kind(kan[0].kind.0) { 12int } else { 6int }
            &&& with_added - with_pon == if is_yaochuu_kind(kan[0].kind.0) { 12int } else { 6int }
            &&& with_ankan - with_pon == if is_yaochuu_kind(kan[0].kind.0) { 28int } else { 14int }
            &&& with_minkan >= with_pon + 6
            &&& with_ankan >= with_pon + 14
        }),
{
    law_meld_fu_by_kind(ctx, mentsu, pair, wait, winning, melds, Meld { kind: MeldKind::Pon { tiles: pon } });
    law_meld_fu_by_kind(ctx, mentsu, pair, wait, winning, melds, Meld { kind: MeldKind::Minkan { tiles: kan } });
    law_meld_fu_by_kind(ctx, mentsu, pair, wait, winning, melds, Meld { kind: MeldKind::Shouminkan { tiles: kan } });
    law_meld_fu_by_kind(ctx, mentsu, pair, wait, winning, melds, Meld { kind: MeldKind::Ankan { tiles: kan } });
}

/// Base points by limit band: 8000 from 13 han (and only there), 6000 for 11
/// or 12 han, 4000 for 8 to 10, 3000 for 6 or 7, 2000 for 5 han, 4 han with
/// 40 fu or more and 3 han with 70 fu or more; below that fu × 2^(han+2),
/// never more than 2000.
pub proof fn law_base_points_bands(han: u32, fu: u32)
    ensures
        han >= 13 ==> spec_base_points(han, fu) == 8000,
        11 <= han <= 12 ==> spec_base_points(han, fu) == 6000,
        8 <= han <= 10 ==> spec_base_points(han, fu) == 4000,
        6 <= han <= 7 ==> spec_base_points(han, fu) == 3000,
        (han == 5 || (han == 4 && fu >= 40) || (han == 3 && fu >= 70)) ==> spec_base_points(han, fu) == 2000,
        !(han >= 5 || (han == 4 && fu >= 40) || (han == 3 && fu >= 70)) ==> spec_base_points(han, fu) == if fu * pow2((han + 2) as nat) < 2000 {
            fu * pow2((han + 2) as nat)
        } else {
            2000
        },
        spec_base_points(han, fu) == 8000 <==> han >= 13,
        spec_base_points(han, fu) <= 8000,
{
    if han < 13 {
        if !(han >= 5 || (han == 4 && fu >= 40) || (han == 3 && fu >= 70)) {
            assert(fu * pow2((han + 2) as nat) >= 0) by (nonlinear_arith);
        }
    }
}

/// The limit of a hand without yakuman follows the han (and, below
/// haneman, the fu): 6 or 7 han are haneman at 3000, 8 to 10 baiman at 4000,
/// 11 or 12 sanbaiman at 6000; 13 han or more is a counted yakuman at 8000
/// where the table counts it and sanbaiman at 6000 where it does not; 5 han,
/// 4 han with 40 fu and 3 han with 70 fu are mangan at 2000; below 13 han the
/// base points are those of [`base_points`]. A hand with n yakuman scores
/// n × 8000 at the n-fold yakuman level.
pub proof fn law_limit_bands(yakuman: int, han: u32, fu: u32, kazoe: bool)
    ensures
        yakuman > 0 ==> spec_limit(yakuman, han, fu, kazoe) == (8000 * yakuman, ScoreLevel::Yakuman(yakuman as u8)),
        yakuman <= 0 && han < 13 ==> spec_limit(yakuman, han, fu, kazoe).0 == spec_base_points(han, fu),
        yakuman <= 0 && han >= 13 && kazoe ==> spec_limit(yakuman, han, fu, kazoe) == (8000int, ScoreLevel::KazoeYakuman),
        yakuman <= 0 && han >= 13 && !kazoe ==> spec_limit(yakuman, han, fu, kazoe) == (6000int, ScoreLevel::Sanbaiman),
        yakuman <= 0 && 11 <= han <= 12 ==> spec_limit(yakuman, han, fu, kazoe) == (6000int, ScoreLevel::Sanbaiman),
        yakuman <= 0 && 8 <= han <= 10 ==> spec_limit(yakuman, han, fu, kazoe) == (4000int, ScoreLevel::Baiman),
        yakuman <= 0 && 6 <= han <= 7 ==> spec_limit(yakuman, han, fu, kazoe) == (3000int, ScoreLevel::Haneman),
        yakuman <= 0 && (han == 5 || (han == 4 && fu >= 40) || (han == 3 && fu >= 70)) ==> spec_limit(yakuman, han, fu, kazoe) == (2000int, ScoreLevel::Mangan),
        yakuman <= 0 && !(han >= 5 || (han == 4 && fu >= 40) || (han == 3 && fu >= 70)) ==> spec_limit(yakuman, han, fu, kazoe) == (spec_base_points(han, fu), ScoreLevel::Normal),
{
    law_base_points_bands(han, fu);
}

/// The payment that seat `s` makes to a tsumo winner.
pub open spec fn tsumo_payment_of(s: Seat, winner: Seat, dealer: Seat, base: int, honba: int) -> PaymentDistribution {
    PaymentDistribution { from: s, to: winner, amount: tsumo_share(s, winner, dealer, base, honba) as i32 }
}

proof fn lemma_tsumo_payments_shape(winner: Seat, dealer: Seat, base: int, honba: int)
    ensures
        ({
            let ps = tsumo_payments(4, winner, dealer, base, honba);
            let w = seat_index(winner);
            &&& ps.len() == 3
            &&& ps[0] == tsumo_payment_of(seat_at(if w == 0 { 1int } else { 0int }), winner, dealer, base, honba)
            &&& ps[1] == tsumo_payment_of(seat_at(if w <= 1 { 2int } else { 1int }), winner, dealer, base, honba)
            &&& ps[2] == tsumo_payment_of(seat_at(if w <= 2 { 3int } else { 2int }), winner, dealer, base, honba)
        }),
{
    reveal_with_fuel(tsumo_payments, 5);
}

/// On a tsumo every seat but the winner pays the winner once. When the
/// dealer wins each pays twice the base rounded up to 100; otherwise the
/// dealer pays twice the base and each other seat the base, rounded up to
/// 100; every share carries 100 per honba. Riichi sticks follow as one more
/// entry.
pub proof fn law_tsumo_shares(winner: Seat, dealer: Seat, base: int, honba: int, riichi_sticks: int)
    requires
        0 <= base,
        0 <= honba,
        0 <= riichi_sticks,
        1000 * riichi_sticks <= i32::MAX,
        2 * base + 99 + 100 * honba <= i32::MAX,
    ensures
        ({
            let ps = spec_distribute(base, winner, dealer, true, None, honba, riichi_sticks);
            let hi = spec_ceil_100(2 * base) + 100 * honba;
            let lo = spec_ceil_100(base) + 100 * honba;
            &&& ps.len() == if riichi_sticks > 0 { 4int } else { 3int }
            &&& forall|k: int| 0 <= k < 4 && #[trigger] seat_at(k) != winner ==> exists|i: int| 0 <= i < 3 && (#[trigger] ps[i]).from == seat_at(k)
            &&& forall|i: int, j: int| 0 <= i < j < 3 ==> (#[trigger] ps[i]).from != (#[trigger] ps[j]).from
            &&& forall|i: int| 0 <= i < 3 ==> (#[trigger] ps[i]).to == winner && ps[i].from != winner
            &&& forall|i: int| 0 <= i < 3 && winner == dealer ==> (#[trigger] ps[i]).amount == hi
            &&& forall|i: int| 0 <= i < 3 && winner != dealer && (#[trigger] ps[i]).from == dealer ==> ps[i].amount == hi
            &&& forall|i: int| 0 <= i < 3 && winner != dealer && (#[trigger] ps[i]).from != dealer ==> ps[i].amount == lo
            &&& riichi_sticks > 0 ==> ps[3].from == winner && ps[3].to == winner && ps[3].amount == 1000 * riichi_sticks
        }),
{
    lemma_ceil_bounds(2 * base);
    lemma_ceil_bounds(base);
    let hi = spec_ceil_100(2 * base) + 100 * honba;
    let lo = spec_ceil_100(base) + 100 * honba;
    assert(hi as i32 == hi);
    assert(lo as i32 == lo);
    lemma_tsumo_payments_shape(winner, dealer, base, honba);
    let ps = tsumo_payments(4, winner, dealer, base, honba);
    let all = spec_distribute(base, winner, dealer, true, None, honba, riichi_sticks);
    if riichi_sticks > 0 {
        let stick = PaymentDistribution { from: winner, to: winner, amount: (riichi_sticks * 1000) as i32 };
        assert(all == ps.push(stick));
        assert(all[3] == stick);
    } else {
        assert(all == ps);
    }
    assert(all[0] == ps[0] && all[1] == ps[1] && all[2] == ps[2]);
    let w = seat_index(winner);
    assert forall|i: int| 0 <= i < 3 implies (#[trigger] all[i]).to == winner && all[i].from != winner && all[i].amount
        == (if winner == dealer || all[i].from == dealer { hi } else { lo }) by {
        if i == 0 {
        } else if i == 1 {
        } else {
        }
    }
    assert forall|i: int, j: int| 0 <= i < j < 3 implies (#[trigger] all[i]).from != (#[trigger] all[j]).from by {
        if i == 0 && j == 1 {
        } else if i == 0 {
        } else {
        }
    }
    assert forall|k: int| 0 <= k < 4 && #[trigger] seat_at(k) != winner implies exists|i: int| 0 <= i < 3 && (#[trigger] all[i]).from == seat_at(k) by {
        let i = if k < w { k } else { k - 1 };
        if i == 0 {
            assert(all[0].from == seat_at(k));
        } else if i == 1 {
            assert(all[1].from == seat_at(k));
        } else {
            assert(all[2].from == seat_at(k));
        }
    }
}

/// On a ron the player who dealt in pays alone: 6 times the base for a
/// dealer's win and 4 times otherwise, rounded up to 100, plus 300 per
/// honba; riichi sticks follow as one more entry.
pub proof fn law_ron_payment(winner: Seat, dealer: Seat, loser: Seat, base: int, honba: int, riichi_sticks: int)
    requires
        0 <= base,
        0 <= honba,
        0 <= riichi_sticks,
        1000 * riichi_sticks <= i32::MAX,
        (if winner == dealer { 6int } else { 4int }) * base + 99 + 300 * honba <= i32::MAX,
    ensures
        ({
            let ps = spec_distribute(base, winner, dealer, false, Some(loser), honba, riichi_sticks);
            &&& ps.len() == if riichi_sticks > 0 { 2int } else { 1int }
            &&& ps[0].from == loser
            &&& ps[0].to == winner
            &&& ps[0].amount == spec_ceil_100((if winner == dealer { 6int } else { 4int }) * base) + 300 * honba
            &&& riichi_sticks > 0 ==> ps[1].from == winner && ps[1].to == winner && ps[1].amount == 1000 * riichi_sticks
        }),
{
    let mult: int = if winner == dealer { 6int } else { 4int };
    assert(mult * base >= 0) by (nonlinear_arith)
        requires
            mult >= 0,
            base >= 0,
    ;
    lemma_ceil_bounds(mult * base);
}


} // verus!
