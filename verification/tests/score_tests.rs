use tui_majo::domain::Seat;
use tui_majo::score::{base_points, ceil_to_100, distribute, ScoreLevel, ScoreResult};

#[test]
fn base_points_thresholds() {
    assert_eq!(base_points(5, 30), 2000);
    assert_eq!(base_points(6, 30), 3000);
    assert_eq!(base_points(8, 30), 4000);
    assert_eq!(base_points(11, 30), 6000);
    assert_eq!(base_points(13, 30), 8000);
    assert_eq!(base_points(4, 40), 2000);
    assert_eq!(base_points(3, 70), 2000);
}

#[test]
fn ceil_round() {
    assert_eq!(ceil_to_100(0), 0);
    assert_eq!(ceil_to_100(1), 100);
    assert_eq!(ceil_to_100(101), 200);
    assert_eq!(ceil_to_100(500), 500);
}

#[test]
fn ron_distribution_dealer() {
    let result = ScoreResult { han: 5, fu: 30, yaku: vec![], base_points: 2000, level: ScoreLevel::Mangan };
    let d = distribute(&result, Seat::East, Seat::East, false, Some(Seat::South), 0, 0);
    assert_eq!(d.len(), 1);
    assert_eq!(d[0].amount, 12000);
}

#[test]
fn tsumo_distribution_non_dealer() {
    let result = ScoreResult { han: 5, fu: 30, yaku: vec![], base_points: 2000, level: ScoreLevel::Mangan };
    let d = distribute(&result, Seat::South, Seat::East, true, None, 0, 0);
    let total: i32 = d.iter().map(|p| p.amount).sum();
    assert_eq!(total, 8000);
    let from_dealer: i32 = d.iter().filter(|p| p.from == Seat::East).map(|p| p.amount).sum();
    assert_eq!(from_dealer, 4000);
}

#[test]
fn base_points_normal_formula() {
    // fu * 2^(2 + han): 30 fu, 1 han = 240; 30 fu 3 han = 960; 30 fu 4 han = 1920.
    assert_eq!(base_points(1, 30), 240);
    assert_eq!(base_points(3, 30), 960);
    assert_eq!(base_points(4, 30), 1920);
    assert_eq!(base_points(7, 30), 3000);
    assert_eq!(base_points(10, 30), 4000);
}

use tui_majo::domain::{Tile, TileIndex};
use tui_majo::score::{
    calculate_fu, evaluate, Decomposition, Meld, MeldKind, Mentsu, ScoringRules, WaitKind,
    WinContext, Yaku,
};

fn ctx(decomposition: Decomposition, menzen: bool, is_tsumo: bool) -> WinContext {
    WinContext {
        decomposition,
        menzen,
        is_tsumo,
        round_wind: TileIndex(27),
        seat_wind: TileIndex(28),
        config: ScoringRules { kazoe_yakuman: true },
    }
}

fn pinfu_shape() -> Decomposition {
    Decomposition::Standard {
        mentsu: vec![
            Mentsu::Shuntsu(TileIndex(0)),
            Mentsu::Shuntsu(TileIndex(3)),
            Mentsu::Shuntsu(TileIndex(10)),
            Mentsu::Shuntsu(TileIndex(20)),
        ],
        pair: TileIndex(5),
        wait: WaitKind::Ryanmen,
        winning_tile: TileIndex(3),
    }
}

#[test]
fn fu_of_special_shapes() {
    let c = ctx(Decomposition::Chiitoitsu { pairs: vec![] }, true, false);
    assert_eq!(calculate_fu(&c.decomposition, &c, &[]), 25);
    let c = ctx(Decomposition::Kokushi { pair: TileIndex(0) }, true, true);
    assert_eq!(calculate_fu(&c.decomposition, &c, &[]), 30);
}

#[test]
fn fu_pinfu_tsumo_and_ron() {
    let c = ctx(pinfu_shape(), true, true);
    assert_eq!(calculate_fu(&c.decomposition, &c, &[]), 20);
    let c = ctx(pinfu_shape(), true, false);
    assert_eq!(calculate_fu(&c.decomposition, &c, &[]), 30);
}

#[test]
fn fu_concealed_terminal_triplet_kanchan_ron() {
    // 20 base + 10 concealed ron + 2 kanchan + 8 concealed terminal triplet = 40.
    let d = Decomposition::Standard {
        mentsu: vec![
            Mentsu::Koutsu(TileIndex(0), true),
            Mentsu::Shuntsu(TileIndex(3)),
            Mentsu::Shuntsu(TileIndex(10)),
            Mentsu::Shuntsu(TileIndex(20)),
        ],
        pair: TileIndex(5),
        wait: WaitKind::Kanchan,
        winning_tile: TileIndex(4),
    };
    let c = ctx(d, true, false);
    assert_eq!(calculate_fu(&c.decomposition, &c, &[]), 40);
}

#[test]
fn fu_open_pon_of_dragons_rounds_up() {
    // Open hand, ron: 20 + 4 (open dragon pon) + 2 (tanki) = 26 -> 30.
    let d = Decomposition::Standard {
        mentsu: vec![
            Mentsu::Shuntsu(TileIndex(1)),
            Mentsu::Shuntsu(TileIndex(10)),
            Mentsu::Shuntsu(TileIndex(20)),
        ],
        pair: TileIndex(5),
        wait: WaitKind::Tanki,
        winning_tile: TileIndex(5),
    };
    let dragon = Tile { kind: TileIndex(31), red: false, id: 0 };
    let melds = [Meld { kind: MeldKind::Pon { tiles: [dragon, dragon, dragon] } }];
    let c = ctx(d, false, false);
    assert_eq!(calculate_fu(&c.decomposition, &c, &melds), 30);
}

#[test]
fn evaluate_needs_a_real_yaku() {
    let c = ctx(pinfu_shape(), true, true);
    assert!(evaluate(&c, &[], vec![(Yaku::Dora(2), 2)]).is_none());
    assert!(evaluate(&c, &[], vec![]).is_none());
}

#[test]
fn evaluate_pinfu_tsumo_two_han() {
    let c = ctx(pinfu_shape(), true, true);
    let r = evaluate(&c, &[], vec![(Yaku::Regular(1), 1), (Yaku::Dora(1), 1)]).unwrap();
    assert_eq!(r.han, 2);
    assert_eq!(r.fu, 20);
    assert_eq!(r.base_points, 320);
    assert_eq!(r.level, ScoreLevel::Normal);
    assert_eq!(r.yaku.len(), 2);
}

#[test]
fn evaluate_yakuman_and_kazoe() {
    let c = ctx(pinfu_shape(), true, true);
    let r = evaluate(&c, &[], vec![(Yaku::Yakuman(1), 26)]).unwrap();
    assert_eq!(r.base_points, 16000);
    assert_eq!(r.level, ScoreLevel::Yakuman(2));
    let r = evaluate(&c, &[], vec![(Yaku::Regular(1), 13)]).unwrap();
    assert_eq!(r.level, ScoreLevel::KazoeYakuman);
    assert_eq!(r.base_points, 8000);
}

#[test]
fn ron_distribution_with_honba_and_sticks() {
    let result = ScoreResult { han: 1, fu: 30, yaku: vec![], base_points: 240, level: ScoreLevel::Normal };
    // Non-dealer ron: 240 * 4 = 960 -> 1000, + 300 per honba, + 1000 per stick.
    let d = distribute(&result, Seat::South, Seat::East, false, Some(Seat::West), 1, 1);
    let paid: i32 = d.iter().filter(|p| p.from == Seat::West).map(|p| p.amount).sum();
    assert_eq!(paid, 1300);
    let total: i32 = d.iter().map(|p| p.amount).sum();
    assert_eq!(total, 2300);
}
