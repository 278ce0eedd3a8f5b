use tui_majo::domain::{Action, Seat, Tile, TileIndex};
use tui_majo::net::mp::actor::MpConfig;
use tui_majo::net::mp::cmd::{MentalPokerMsg, MpEvent, MpRoomCmd};
use tui_majo::net::mp::phase::MpPhase;

#[test]
fn config_n_players_from_peer_ids() {
    let cfg = MpConfig {
        own_index: 0,
        all_peer_ids: vec![vec![1], vec![2], vec![3], vec![4]],
        session_label: vec![],
        deck_size: 136,
        cnc_k_rounds: 80,
    };
    assert_eq!(cfg.n_players(), 4);
}

#[test]
fn local_action_carries_action_variant() {
    let cmd = MpRoomCmd::LocalAction(Action::Pass);
    match cmd {
        MpRoomCmd::LocalAction(Action::Pass) => {}
        _ => panic!("variant"),
    }
    let cmd = MpRoomCmd::LocalAction(Action::Ron(Seat::West));
    match cmd {
        MpRoomCmd::LocalAction(Action::Ron(s)) => assert_eq!(s, Seat::West),
        _ => panic!(),
    }
}

#[test]
fn peer_msg_from_optional() {
    let cmd = MpRoomCmd::PeerMsg {
        from: Some(2),
        msg: MentalPokerMsg::KeyShare { peer_id: vec![], pk: vec![], proof: vec![] },
    };
    match cmd {
        MpRoomCmd::PeerMsg { from: Some(2), .. } => {}
        _ => panic!(),
    }
}

#[test]
fn discard_with_tile() {
    let t = Tile { kind: TileIndex(5), red: false, id: 99 };
    let cmd = MpRoomCmd::LocalAction(Action::Discard(t));
    match cmd {
        MpRoomCmd::LocalAction(Action::Discard(tile)) => {
            assert_eq!(tile.id, 99);
        }
        _ => panic!(),
    }
}

#[test]
fn happy_path_transitions_allowed() {
    assert!(MpPhase::KeyExchange.can_transition_to(MpPhase::Shuffling));
    assert!(MpPhase::Shuffling.can_transition_to(MpPhase::Playing));
    assert!(MpPhase::Playing.can_transition_to(MpPhase::GameOver));
    assert!(MpPhase::GameOver.can_transition_to(MpPhase::KeyExchange));
}

#[test]
fn invalid_transitions_rejected() {
    assert!(!MpPhase::KeyExchange.can_transition_to(MpPhase::Playing));
    assert!(!MpPhase::KeyExchange.can_transition_to(MpPhase::GameOver));
    assert!(!MpPhase::Playing.can_transition_to(MpPhase::Shuffling));
    assert!(!MpPhase::GameOver.can_transition_to(MpPhase::Playing));
}

#[test]
fn no_self_loop_except_via_next_round() {
    for p in [MpPhase::KeyExchange, MpPhase::Shuffling, MpPhase::Playing, MpPhase::GameOver] {
        assert!(!p.can_transition_to(p), "phase {p:?} must not loop to itself");
    }
}

#[test]
fn is_in_progress_only_shuffling_and_playing() {
    assert!(!MpPhase::KeyExchange.is_in_progress());
    assert!(MpPhase::Shuffling.is_in_progress());
    assert!(MpPhase::Playing.is_in_progress());
    assert!(!MpPhase::GameOver.is_in_progress());
}

#[test]
fn four_steps_complete_the_phase_cycle() {
    let mut p = MpPhase::KeyExchange;
    let order = [MpPhase::Shuffling, MpPhase::Playing, MpPhase::GameOver, MpPhase::KeyExchange];
    for next in order {
        assert!(p.can_transition_to(next));
        assert!(!next.can_transition_to(p), "no step back from {next:?}");
        p = next;
    }
    assert_eq!(p, MpPhase::KeyExchange);
}

#[test]
fn protocol_error_ends_the_hand_once() {
    let mut p = MpPhase::Playing;
    assert!(p.on_protocol_error());
    assert_eq!(p, MpPhase::GameOver);
    assert!(!p.on_protocol_error());
    assert_eq!(p, MpPhase::GameOver);
    let mut k = MpPhase::KeyExchange;
    assert!(k.on_protocol_error());
    assert_eq!(k, MpPhase::GameOver);
}

#[test]
fn peer_messages_are_taken_in_their_phase_only() {
    let share = MentalPokerMsg::KeyShare { peer_id: vec![1], pk: vec![], proof: vec![] };
    assert!(share.accepted_in(MpPhase::KeyExchange));
    assert!(!share.accepted_in(MpPhase::Playing));
    let discard = MentalPokerMsg::Discard { player: 1, deck_index: 3, plaintext: vec![] };
    assert!(discard.accepted_in(MpPhase::Playing));
    assert!(!discard.accepted_in(MpPhase::Shuffling));
    assert!(!discard.accepted_in(MpPhase::GameOver));
}

#[test]
fn event_outbound_broadcast_vs_unicast() {
    let bcast = MpEvent::OutboundMsg {
        to: None,
        msg: MentalPokerMsg::Discard { player: 0, deck_index: 5, plaintext: vec![] },
    };
    let dm = MpEvent::OutboundMsg {
        to: Some(2),
        msg: MentalPokerMsg::ConcealedKanReveal { plaintexts: [vec![], vec![], vec![], vec![]] },
    };
    match bcast {
        MpEvent::OutboundMsg { to: None, .. } => {}
        _ => panic!(),
    }
    match dm {
        MpEvent::OutboundMsg { to: Some(2), .. } => {}
        _ => panic!(),
    }
}

#[test]
fn phase_changed_event() {
    let e = MpEvent::PhaseChanged { phase: MpPhase::Shuffling };
    match e {
        MpEvent::PhaseChanged { phase } => assert_eq!(phase, MpPhase::Shuffling),
        _ => panic!(),
    }
}
