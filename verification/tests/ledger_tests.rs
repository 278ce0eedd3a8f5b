use ark_bls12_381::G1Projective;
use ark_serialize::CanonicalSerialize;
use ark_std::UniformRand;
use ark_std::rand::Rng;

use tui_majo::mental_poker::protocol_call::{CallAnnouncement, CallError};
use tui_majo::mental_poker::protocol_concealed_kan::{ConcealedKanAnnouncement, ConcealedKanError};
use tui_majo::mental_poker::protocol_discard::{DiscardAnnouncement, DiscardError};
use tui_majo::mental_poker::protocol_state::{
    CallType, ConcealedKanRecord, HandState, HandStateError, MeldRecord, Table,
};

/// The canonical (compressed) encoding of a random group element.
fn rand_point<R: Rng>(rng: &mut R) -> Vec<u8> {
    let p = G1Projective::rand(rng);
    let mut out = Vec::new();
    p.serialize_compressed(&mut out).unwrap();
    out
}

fn identity_point() -> Vec<u8> {
    let mut out = Vec::new();
    G1Projective::default().serialize_compressed(&mut out).unwrap();
    out
}

// ---------------------------------------------------------------------------
// HandState
// ---------------------------------------------------------------------------

#[test]
fn record_draw_and_query() {
    let rng = &mut ark_std::test_rng();
    let mut h = HandState::new();
    let pt = rand_point(rng);
    h.record_draw(5, Some(pt.clone())).unwrap();
    assert!(h.has_in_hand(5));
    assert_eq!(h.drawn_plaintext(5), Some(&pt));
}

#[test]
fn record_draw_duplicate_rejected() {
    let mut h = HandState::new();
    h.record_draw(5, None).unwrap();
    assert_eq!(h.record_draw(5, None), Err(HandStateError::AlreadyDrawn { index: 5 }));
}

#[test]
fn discard_must_be_drawn_first() {
    let rng = &mut ark_std::test_rng();
    let mut h = HandState::new();
    let pt = rand_point(rng);
    assert_eq!(h.record_discard(5, pt), Err(HandStateError::NotDrawn { index: 5 }));
}

#[test]
fn protocol_state_discard_double_rejected() {
    let rng = &mut ark_std::test_rng();
    let mut h = HandState::new();
    let pt = rand_point(rng);
    h.record_draw(5, Some(pt.clone())).unwrap();
    h.record_discard(5, pt.clone()).unwrap();
    assert_eq!(h.record_discard(5, pt), Err(HandStateError::AlreadyDiscarded { index: 5 }));
}

#[test]
fn discarded_not_in_hand() {
    let rng = &mut ark_std::test_rng();
    let mut h = HandState::new();
    let pt = rand_point(rng);
    h.record_draw(5, Some(pt.clone())).unwrap();
    h.record_discard(5, pt).unwrap();
    assert!(!h.has_in_hand(5));
}

#[test]
fn meld_consumes_indices_from_hand() {
    let rng = &mut ark_std::test_rng();
    let mut h = HandState::new();
    for i in 0..3 {
        h.record_draw(i, Some(rand_point(rng))).unwrap();
    }
    let pts: Vec<Vec<u8>> = (0..3).map(|_| rand_point(rng)).collect();
    let meld = MeldRecord {
        call_type: CallType::Pon,
        deck_indices: vec![0, 1, 99],
        plaintexts: pts,
        from_player: 2,
        from_position_in_meld: 2,
    };
    h.record_meld(meld).unwrap();
    assert!(!h.has_in_hand(0));
    assert!(!h.has_in_hand(1));
}

#[test]
fn meld_size_mismatch_rejected() {
    let rng = &mut ark_std::test_rng();
    let mut h = HandState::new();
    h.record_draw(0, Some(rand_point(rng))).unwrap();
    let meld = MeldRecord {
        call_type: CallType::Pon,
        deck_indices: vec![0, 1],
        plaintexts: vec![rand_point(rng), rand_point(rng)],
        from_player: 1,
        from_position_in_meld: 1,
    };
    assert!(matches!(h.record_meld(meld), Err(HandStateError::WrongCallSize { .. })));
}

#[test]
fn meld_indices_plaintexts_length_mismatch() {
    let rng = &mut ark_std::test_rng();
    let mut h = HandState::new();
    h.record_draw(0, Some(rand_point(rng))).unwrap();
    h.record_draw(1, Some(rand_point(rng))).unwrap();
    let meld = MeldRecord {
        call_type: CallType::Pon,
        deck_indices: vec![0, 1, 99],
        plaintexts: vec![rand_point(rng), rand_point(rng)],
        from_player: 2,
        from_position_in_meld: 2,
    };
    assert!(matches!(h.record_meld(meld), Err(HandStateError::SizeMismatch { .. })));
}

#[test]
fn meld_index_not_drawn_rejected() {
    let rng = &mut ark_std::test_rng();
    let mut h = HandState::new();
    let pt = rand_point(rng);
    let meld = MeldRecord {
        call_type: CallType::Pon,
        deck_indices: vec![0, 1, 99],
        plaintexts: vec![pt.clone(), pt.clone(), pt],
        from_player: 2,
        from_position_in_meld: 2,
    };
    assert!(matches!(h.record_meld(meld), Err(HandStateError::NotInHand { .. })));
}

#[test]
fn concealed_kan_records_4_indices() {
    let rng = &mut ark_std::test_rng();
    let mut h = HandState::new();
    for i in 0..4 {
        h.record_draw(i, Some(rand_point(rng))).unwrap();
    }
    let kan = ConcealedKanRecord { deck_indices: [0, 1, 2, 3], monitor_player: 2 };
    h.record_concealed_kan(kan).unwrap();
    for i in 0..4 {
        assert!(!h.has_in_hand(i));
    }
}

#[test]
fn protocol_state_concealed_kan_index_not_drawn_rejected() {
    let mut h = HandState::new();
    let kan = ConcealedKanRecord { deck_indices: [0, 1, 2, 3], monitor_player: 1 };
    assert!(matches!(h.record_concealed_kan(kan), Err(HandStateError::NotInHand { .. })));
}

#[test]
fn meld_then_discard_same_index_rejected() {
    let rng = &mut ark_std::test_rng();
    let mut h = HandState::new();
    for i in 0..3 {
        h.record_draw(i, Some(rand_point(rng))).unwrap();
    }
    let pt = rand_point(rng);
    let meld = MeldRecord {
        call_type: CallType::Pon,
        deck_indices: vec![0, 1, 99],
        plaintexts: vec![pt.clone(), pt.clone(), pt],
        from_player: 2,
        from_position_in_meld: 2,
    };
    h.record_meld(meld).unwrap();
    let pt = rand_point(rng);
    assert!(matches!(h.record_discard(0, pt), Err(HandStateError::NotInHand { index: 0 })));
}

#[test]
fn table_init_n_hands() {
    let table = Table::new(4, 136);
    assert_eq!(table.hands.len(), 4);
    assert_eq!(table.wall_size, 136);
}

#[test]
fn has_all_in_hand_partial() {
    let rng = &mut ark_std::test_rng();
    let mut h = HandState::new();
    h.record_draw(0, Some(rand_point(rng))).unwrap();
    h.record_draw(2, Some(rand_point(rng))).unwrap();
    assert!(h.has_all_in_hand(&[0]));
    assert!(h.has_all_in_hand(&[0, 2]));
    assert!(!h.has_all_in_hand(&[0, 1]));
}

/// Draws positions 0..4 and records a pon (or another call) over 0, 1, 2
/// with 2 as the called position, the way an earlier call would have.
fn hand_with_meld(call_type: CallType, pt: &Vec<u8>, draws: usize) -> HandState {
    let mut h = HandState::new();
    for i in 0..draws {
        h.record_draw(i, Some(pt.clone())).unwrap();
    }
    h.record_meld(MeldRecord {
        call_type,
        deck_indices: vec![0, 1, 2],
        plaintexts: vec![pt.clone(), pt.clone(), pt.clone()],
        from_player: 1,
        from_position_in_meld: 2,
    })
    .unwrap();
    h
}

#[test]
fn shouminkan_upgrades_pon_to_kan() {
    let rng = &mut ark_std::test_rng();
    let pt = rand_point(rng);
    let mut h = hand_with_meld(CallType::Pon, &pt, 4);
    assert!(!h.has_in_hand(0));
    assert!(h.has_in_hand(3));
    h.record_shouminkan(0, 3, pt.clone()).unwrap();
    assert_eq!(h.melds()[0].call_type, CallType::Kan);
    assert_eq!(h.melds()[0].deck_indices, vec![0, 1, 2, 3]);
    assert_eq!(h.melds()[0].plaintexts.len(), 4);
    assert!(!h.has_in_hand(3));
}

#[test]
fn shouminkan_rejects_plaintext_mismatch() {
    let rng = &mut ark_std::test_rng();
    let pt_a = rand_point(rng);
    let pt_b = rand_point(rng);
    let mut h = hand_with_meld(CallType::Pon, &pt_a, 4);
    let err = h.record_shouminkan(0, 3, pt_b).unwrap_err();
    assert!(matches!(err, HandStateError::ShouminkanPlaintextMismatch { idx: 0 }));
}

#[test]
fn shouminkan_rejects_non_pon_target() {
    let rng = &mut ark_std::test_rng();
    let pt = rand_point(rng);
    let mut h = hand_with_meld(CallType::Chi, &pt, 5);
    let err = h.record_shouminkan(0, 3, pt).unwrap_err();
    assert!(matches!(err, HandStateError::ShouminkanNotPon { idx: 0, actual: CallType::Chi }));
}

#[test]
fn shouminkan_target_out_of_range() {
    let rng = &mut ark_std::test_rng();
    let pt = rand_point(rng);
    let mut h = HandState::new();
    h.record_draw(3, Some(pt.clone())).unwrap();
    assert_eq!(
        h.record_shouminkan(0, 3, pt),
        Err(HandStateError::ShouminkanTargetOutOfRange { idx: 0, len: 0 })
    );
}

#[test]
fn meld_from_position_out_of_range() {
    let rng = &mut ark_std::test_rng();
    let pt = rand_point(rng);
    let mut h = HandState::new();
    let meld = MeldRecord {
        call_type: CallType::Pon,
        deck_indices: vec![0, 1, 2],
        plaintexts: vec![pt.clone(), pt.clone(), pt],
        from_player: 1,
        from_position_in_meld: 3,
    };
    assert_eq!(h.record_meld(meld), Err(HandStateError::FromPositionOutOfRange { pos: 3, len: 3 }));
}

#[test]
fn drawn_and_discarded_indices_listed() {
    let rng = &mut ark_std::test_rng();
    let mut h = HandState::new();
    let pt = rand_point(rng);
    h.record_draw(7, Some(pt.clone())).unwrap();
    h.record_draw(3, None).unwrap();
    h.record_discard(7, pt.clone()).unwrap();
    let mut drawn = h.drawn_indices();
    drawn.sort();
    assert_eq!(drawn, vec![3, 7]);
    assert_eq!(h.discarded_indices(), vec![7]);
    assert_eq!(h.discarded_plaintext(7), Some(&pt));
    assert_eq!(h.drawn_plaintext(3), None);
    assert_eq!(h.concealed_kans().len(), 0);
}

#[test]
fn expected_indices_count_per_call() {
    assert_eq!(CallType::Chi.expected_indices_count(), 3);
    assert_eq!(CallType::Pon.expected_indices_count(), 3);
    assert_eq!(CallType::Kan.expected_indices_count(), 4);
}

// ---------------------------------------------------------------------------
// Protocol 4: discard
// ---------------------------------------------------------------------------

#[test]
fn discard_apply_updates_table() {
    let rng = &mut ark_std::test_rng();
    let mut table = Table::new(4, 136);
    let pt = rand_point(rng);
    table.hand_mut(0).record_draw(5, Some(pt.clone())).unwrap();
    let ann = DiscardAnnouncement { player: 0, deck_index: 5, plaintext: pt.clone() };
    ann.apply(&mut table).unwrap();
    assert!(!table.hand(0).has_in_hand(5));
    assert_eq!(table.hand(0).discarded_plaintext(5), Some(&pt));
}

#[test]
fn discard_unknown_player_rejected() {
    let mut table = Table::new(4, 136);
    let ann = DiscardAnnouncement { player: 99, deck_index: 5, plaintext: identity_point() };
    assert!(matches!(ann.apply(&mut table), Err(DiscardError::UnknownPlayer { .. })));
}

#[test]
fn discard_not_drawn_rejected() {
    let rng = &mut ark_std::test_rng();
    let mut table = Table::new(4, 136);
    let ann = DiscardAnnouncement { player: 0, deck_index: 5, plaintext: rand_point(rng) };
    assert!(matches!(
        ann.apply(&mut table),
        Err(DiscardError::Hand(HandStateError::NotDrawn { .. }))
    ));
}

#[test]
fn protocol_discard_discard_double_rejected() {
    let rng = &mut ark_std::test_rng();
    let mut table = Table::new(4, 136);
    let pt = rand_point(rng);
    table.hand_mut(0).record_draw(5, Some(pt.clone())).unwrap();
    let ann = DiscardAnnouncement { player: 0, deck_index: 5, plaintext: pt };
    ann.apply(&mut table).unwrap();
    assert!(matches!(
        ann.apply(&mut table),
        Err(DiscardError::Hand(HandStateError::AlreadyDiscarded { .. }))
    ));
}

#[test]
fn discard_other_player_index_rejected() {
    let rng = &mut ark_std::test_rng();
    let mut table = Table::new(4, 136);
    let pt = rand_point(rng);
    table.hand_mut(0).record_draw(5, Some(pt.clone())).unwrap();
    let ann = DiscardAnnouncement { player: 1, deck_index: 5, plaintext: pt };
    assert!(matches!(
        ann.apply(&mut table),
        Err(DiscardError::Hand(HandStateError::NotDrawn { index: 5 }))
    ));
}

// ---------------------------------------------------------------------------
// Protocol 5: calls
// ---------------------------------------------------------------------------

/// Player 1 draws position 50 and discards it with plaintext `pt`.
fn discard_50(table: &mut Table, pt: &Vec<u8>) {
    table.hand_mut(1).record_draw(50, Some(pt.clone())).unwrap();
    DiscardAnnouncement { player: 1, deck_index: 50, plaintext: pt.clone() }.apply(table).unwrap();
}

#[test]
fn pon_call_after_discard() {
    let rng = &mut ark_std::test_rng();
    let mut table = Table::new(4, 136);
    let p0_pt = rand_point(rng);
    table.hand_mut(0).record_draw(0, Some(p0_pt.clone())).unwrap();
    table.hand_mut(0).record_draw(1, Some(p0_pt.clone())).unwrap();
    discard_50(&mut table, &p0_pt);
    let call = CallAnnouncement {
        player: 0,
        call_type: CallType::Pon,
        deck_indices: vec![0, 1, 50],
        plaintexts: vec![p0_pt.clone(), p0_pt.clone(), p0_pt],
        from_player: 1,
        from_position_in_meld: 2,
    };
    call.apply(&mut table).unwrap();
    assert!(!table.hand(0).has_in_hand(0));
    assert!(!table.hand(0).has_in_hand(1));
    assert_eq!(table.hand(0).melds().len(), 1);
}

#[test]
fn self_call_rejected() {
    let mut table = Table::new(4, 136);
    let call = CallAnnouncement {
        player: 1,
        call_type: CallType::Pon,
        deck_indices: vec![0, 1, 2],
        plaintexts: vec![identity_point(), identity_point(), identity_point()],
        from_player: 1,
        from_position_in_meld: 2,
    };
    assert!(matches!(call.apply(&mut table), Err(CallError::SelfCall { player: 1 })));
}

#[test]
fn from_discard_not_found_rejected() {
    let rng = &mut ark_std::test_rng();
    let mut table = Table::new(4, 136);
    let pt = rand_point(rng);
    table.hand_mut(0).record_draw(0, Some(pt.clone())).unwrap();
    table.hand_mut(0).record_draw(1, Some(pt.clone())).unwrap();
    let call = CallAnnouncement {
        player: 0,
        call_type: CallType::Pon,
        deck_indices: vec![0, 1, 50],
        plaintexts: vec![pt.clone(), pt.clone(), pt],
        from_player: 1,
        from_position_in_meld: 2,
    };
    assert!(matches!(
        call.apply(&mut table),
        Err(CallError::FromDiscardNotFound { from: 1, index: 50 })
    ));
}

#[test]
fn from_plaintext_mismatch_rejected() {
    let rng = &mut ark_std::test_rng();
    let mut table = Table::new(4, 136);
    let pt = rand_point(rng);
    let other_pt = rand_point(rng);
    table.hand_mut(0).record_draw(0, Some(pt.clone())).unwrap();
    table.hand_mut(0).record_draw(1, Some(pt.clone())).unwrap();
    discard_50(&mut table, &pt);
    let call = CallAnnouncement {
        player: 0,
        call_type: CallType::Pon,
        deck_indices: vec![0, 1, 50],
        plaintexts: vec![pt.clone(), pt, other_pt],
        from_player: 1,
        from_position_in_meld: 2,
    };
    assert!(matches!(
        call.apply(&mut table),
        Err(CallError::FromPlaintextMismatch { index: 50 })
    ));
}

#[test]
fn kan_size_4_required() {
    let rng = &mut ark_std::test_rng();
    let mut table = Table::new(4, 136);
    let pt = rand_point(rng);
    for i in 0..3 {
        table.hand_mut(0).record_draw(i, Some(pt.clone())).unwrap();
    }
    discard_50(&mut table, &pt);
    let call = CallAnnouncement {
        player: 0,
        call_type: CallType::Kan,
        deck_indices: vec![0, 1, 50],
        plaintexts: vec![pt.clone(), pt.clone(), pt],
        from_player: 1,
        from_position_in_meld: 2,
    };
    assert!(matches!(
        call.apply(&mut table),
        Err(CallError::Hand(HandStateError::WrongCallSize { .. }))
    ));
}

#[test]
fn chi_3_consecutive_size_3() {
    let rng = &mut ark_std::test_rng();
    let mut table = Table::new(4, 136);
    let pt0 = rand_point(rng);
    let pt1 = rand_point(rng);
    let pt2 = rand_point(rng);
    table.hand_mut(0).record_draw(0, Some(pt0.clone())).unwrap();
    table.hand_mut(0).record_draw(1, Some(pt1.clone())).unwrap();
    discard_50(&mut table, &pt2);
    let call = CallAnnouncement {
        player: 0,
        call_type: CallType::Chi,
        deck_indices: vec![0, 1, 50],
        plaintexts: vec![pt0, pt1, pt2],
        from_player: 1,
        from_position_in_meld: 2,
    };
    call.apply(&mut table).unwrap();
    assert_eq!(table.hand(0).melds().len(), 1);
}

#[test]
fn call_unknown_players_and_position_rejected() {
    let mut table = Table::new(4, 136);
    let pt = identity_point();
    let mut call = CallAnnouncement {
        player: 7,
        call_type: CallType::Pon,
        deck_indices: vec![0, 1, 50],
        plaintexts: vec![pt.clone(), pt.clone(), pt],
        from_player: 1,
        from_position_in_meld: 2,
    };
    assert_eq!(call.apply(&mut table), Err(CallError::UnknownPlayer { player: 7, n: 4 }));
    call.player = 0;
    call.from_player = 9;
    assert_eq!(call.apply(&mut table), Err(CallError::UnknownFromPlayer { from: 9, n: 4 }));
    call.from_player = 1;
    call.from_position_in_meld = 3;
    assert_eq!(call.apply(&mut table), Err(CallError::FromPositionOutOfRange { pos: 3, len: 3 }));
}

#[test]
fn mirror_inconsistency_caught_in_pon() {
    let rng = &mut ark_std::test_rng();
    let mut t_player0 = Table::new(4, 136);
    let mut t_player2 = Table::new(4, 136);
    let pt_real = rand_point(rng);
    let pt_fake = rand_point(rng);
    t_player0.hand_mut(1).record_draw(50, None).unwrap();
    DiscardAnnouncement { player: 1, deck_index: 50, plaintext: pt_real.clone() }
        .apply(&mut t_player0)
        .unwrap();
    t_player2.hand_mut(1).record_draw(50, None).unwrap();
    DiscardAnnouncement { player: 1, deck_index: 50, plaintext: pt_fake }
        .apply(&mut t_player2)
        .unwrap();
    t_player0.hand_mut(0).record_draw(0, Some(pt_real.clone())).unwrap();
    t_player0.hand_mut(0).record_draw(1, Some(pt_real.clone())).unwrap();
    t_player2.hand_mut(0).record_draw(0, None).unwrap();
    t_player2.hand_mut(0).record_draw(1, None).unwrap();
    let call = CallAnnouncement {
        player: 0,
        call_type: CallType::Pon,
        deck_indices: vec![0, 1, 50],
        plaintexts: vec![pt_real.clone(), pt_real.clone(), pt_real],
        from_player: 1,
        from_position_in_meld: 2,
    };
    call.apply(&mut t_player0).unwrap();
    let err = call.apply(&mut t_player2).unwrap_err();
    assert!(matches!(err, CallError::FromPlaintextMismatch { index: 50 }));
}

// ---------------------------------------------------------------------------
// Protocol 6: concealed kan
// ---------------------------------------------------------------------------

#[test]
fn concealed_kan_apply_moves_indices_out_of_hand() {
    let rng = &mut ark_std::test_rng();
    let mut table = Table::new(4, 136);
    for i in 0..4 {
        table.hand_mut(0).record_draw(i, Some(rand_point(rng))).unwrap();
    }
    let ann = ConcealedKanAnnouncement { player: 0, deck_indices: [0, 1, 2, 3], monitor_player: 2 };
    ann.apply(&mut table).unwrap();
    for i in 0..4 {
        assert!(!table.hand(0).has_in_hand(i));
    }
    assert_eq!(table.hand(0).concealed_kans().len(), 1);
    assert_eq!(table.hand(0).concealed_kans()[0].monitor_player, 2);
}

#[test]
fn self_monitor_rejected() {
    let mut table = Table::new(4, 136);
    let ann = ConcealedKanAnnouncement { player: 0, deck_indices: [0, 1, 2, 3], monitor_player: 0 };
    assert!(matches!(ann.apply(&mut table), Err(ConcealedKanError::SelfMonitor { player: 0 })));
}

#[test]
fn unknown_monitor_rejected() {
    let mut table = Table::new(4, 136);
    let ann = ConcealedKanAnnouncement { player: 0, deck_indices: [0, 1, 2, 3], monitor_player: 99 };
    assert!(matches!(
        ann.apply(&mut table),
        Err(ConcealedKanError::UnknownMonitor { monitor: 99, .. })
    ));
}

#[test]
fn protocol_concealed_kan_concealed_kan_index_not_drawn_rejected() {
    let mut table = Table::new(4, 136);
    let ann = ConcealedKanAnnouncement { player: 0, deck_indices: [0, 1, 2, 3], monitor_player: 2 };
    assert!(matches!(
        ann.apply(&mut table),
        Err(ConcealedKanError::Hand(HandStateError::NotInHand { .. }))
    ));
}

#[test]
fn concealed_kan_unknown_player_rejected() {
    let mut table = Table::new(4, 136);
    let ann = ConcealedKanAnnouncement { player: 4, deck_indices: [0, 1, 2, 3], monitor_player: 2 };
    assert_eq!(ann.apply(&mut table), Err(ConcealedKanError::UnknownPlayer { player: 4, n: 4 }));
}

// ---------------------------------------------------------------------------
// Protocols 4-6 together, four mirrors in step
// ---------------------------------------------------------------------------

#[test]
fn protocol_4_5_6_7_full_hand_e2e() {
    let rng = &mut ark_std::test_rng();
    let mut tables: Vec<Table> = (0..4).map(|_| Table::new(4, 136)).collect();
    let p0_pts: Vec<Vec<u8>> = (0..14).map(|_| rand_point(rng)).collect();
    let p1_discard_pt = p0_pts[0].clone();
    for (i, pt) in p0_pts.iter().enumerate() {
        for (player_view, t) in tables.iter_mut().enumerate() {
            let p = if player_view == 0 { Some(pt.clone()) } else { None };
            t.hand_mut(0).record_draw(i, p).unwrap();
        }
    }
    for (player_view, t) in tables.iter_mut().enumerate() {
        let p = if player_view == 1 { Some(p1_discard_pt.clone()) } else { None };
        t.hand_mut(1).record_draw(50, p).unwrap();
    }

    let discard = DiscardAnnouncement { player: 1, deck_index: 50, plaintext: p1_discard_pt.clone() };
    for t in tables.iter_mut() {
        discard.apply(t).unwrap();
    }
    for t in &tables {
        assert!(!t.hand(1).has_in_hand(50));
        assert_eq!(t.hand(1).discarded_plaintext(50), Some(&p1_discard_pt));
    }

    let call = CallAnnouncement {
        player: 0,
        call_type: CallType::Pon,
        deck_indices: vec![0, 1, 50],
        plaintexts: vec![p0_pts[0].clone(), p0_pts[1].clone(), p1_discard_pt.clone()],
        from_player: 1,
        from_position_in_meld: 2,
    };
    for t in tables.iter_mut() {
        call.apply(t).unwrap();
    }
    for t in &tables {
        assert_eq!(t.hand(0).melds().len(), 1);
        assert!(!t.hand(0).has_in_hand(0));
        assert!(!t.hand(0).has_in_hand(1));
    }

    let kan = ConcealedKanAnnouncement { player: 0, deck_indices: [2, 3, 4, 5], monitor_player: 2 };
    for t in tables.iter_mut() {
        kan.apply(t).unwrap();
    }
    for t in &tables {
        assert_eq!(t.hand(0).concealed_kans().len(), 1);
        for i in 2..=5 {
            assert!(!t.hand(0).has_in_hand(i));
        }
        // What remains for the winning hand: positions 6..14 are still held.
        for i in 6..14 {
            assert!(t.hand(0).has_in_hand(i));
        }
    }
}

#[test]
fn ledger_positions_leave_the_hand_one_way_only() {
    let rng = &mut ark_std::test_rng();
    let mut h = HandState::new();
    for i in 0..8 {
        h.record_draw(i, Some(rand_point(rng))).unwrap();
    }
    let pt = rand_point(rng);
    let meld = MeldRecord {
        call_type: CallType::Pon,
        deck_indices: vec![0, 1, 50],
        plaintexts: vec![pt.clone(), pt.clone(), pt.clone()],
        from_player: 1,
        from_position_in_meld: 2,
    };
    h.record_meld(meld).unwrap();
    // An own position of a meld cannot go into another meld or a kan.
    let again = MeldRecord {
        call_type: CallType::Pon,
        deck_indices: vec![1, 2, 51],
        plaintexts: vec![pt.clone(), pt.clone(), pt.clone()],
        from_player: 1,
        from_position_in_meld: 2,
    };
    assert_eq!(h.record_meld(again), Err(HandStateError::NotInHand { index: 1 }));
    let kan = ConcealedKanRecord { deck_indices: [2, 3, 4, 1], monitor_player: 1 };
    assert_eq!(h.record_concealed_kan(kan), Err(HandStateError::NotInHand { index: 1 }));
    let kan = ConcealedKanRecord { deck_indices: [2, 3, 4, 5], monitor_player: 1 };
    h.record_concealed_kan(kan).unwrap();
    // A kanned position cannot go into a second kan, a meld, or the river.
    let kan2 = ConcealedKanRecord { deck_indices: [6, 7, 5, 0], monitor_player: 1 };
    assert_eq!(h.record_concealed_kan(kan2), Err(HandStateError::NotInHand { index: 5 }));
    assert_eq!(h.record_discard(5, pt.clone()), Err(HandStateError::NotInHand { index: 5 }));
    h.record_discard(6, pt).unwrap();
    let drawn = h.drawn_indices();
    for k in h.discarded_indices() {
        assert!(drawn.contains(&k));
    }
    assert_eq!(h.melds().len(), 1);
    assert_eq!(h.concealed_kans().len(), 1);
}
