use tui_majo::domain::{Action, Phase, Seat, Tile, TileIndex};
use tui_majo::player::{
    ai_choose_discard, ai_react_to_discard, default_action_on_timeout, GameState, PlayerState,
};

fn tile(kind: u8, id: u8) -> Tile {
    Tile { kind: TileIndex(kind), red: false, id }
}

fn empty_player() -> PlayerState {
    PlayerState { last_drawn: None, closed: vec![] }
}

/// A fresh game, before the deal: nobody has drawn.
fn new_game() -> GameState {
    GameState {
        turn: Seat::East,
        phase: Phase::Deal,
        players: [empty_player(), empty_player(), empty_player(), empty_player()],
        tsumo_available: false,
        ron_available: [false; 4],
    }
}

/// East has drawn tile 42 and must discard.
fn after_east_draw() -> (GameState, Tile) {
    let drawn = tile(7, 42);
    let mut g = new_game();
    g.phase = Phase::AwaitDiscard;
    g.players[0] = PlayerState { last_drawn: Some(drawn), closed: vec![tile(1, 1), tile(2, 2)] };
    (g, drawn)
}

#[test]
fn timeout_default_discards_last_drawn() {
    let (g, drawn) = after_east_draw();
    match default_action_on_timeout(&g) {
        Action::Discard(t) => assert_eq!(t.id, drawn.id),
        other => panic!("expected a discard, got {:?}", other),
    }
}

#[test]
fn timeout_default_pass_outside_discard_phase() {
    let g = new_game();
    assert!(matches!(default_action_on_timeout(&g), Action::Pass));
}

#[test]
fn timeout_without_drawn_tile_discards_last_closed() {
    let mut g = new_game();
    g.phase = Phase::AwaitDiscard;
    g.players[0] = PlayerState { last_drawn: None, closed: vec![tile(1, 1), tile(2, 9)] };
    assert_eq!(default_action_on_timeout(&g), Action::Discard(tile(2, 9)));
    g.players[0] = empty_player();
    assert_eq!(default_action_on_timeout(&g), Action::Pass);
}

#[test]
fn timeout_never_declares_a_win() {
    let (mut g, drawn) = after_east_draw();
    g.tsumo_available = true;
    assert_eq!(default_action_on_timeout(&g), Action::Discard(drawn));
}

#[test]
fn ai_tsumo_when_possible_else_tsumogiri() {
    let (mut g, drawn) = after_east_draw();
    assert_eq!(ai_choose_discard(&g), Action::Discard(drawn));
    g.tsumo_available = true;
    assert_eq!(ai_choose_discard(&g), Action::Tsumo);
}

#[test]
fn ai_rons_when_possible_else_passes() {
    let mut g = new_game();
    g.phase = Phase::AwaitCalls;
    assert_eq!(ai_react_to_discard(&g, Seat::West), Action::Pass);
    g.ron_available[2] = true;
    assert_eq!(ai_react_to_discard(&g, Seat::West), Action::Ron(Seat::West));
    assert_eq!(ai_react_to_discard(&g, Seat::North), Action::Pass);
}
