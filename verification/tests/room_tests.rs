use sha2::{Digest, Sha256};
use tui_majo::domain::Seat;
use tui_majo::net::p2p::mode::RoomMode;
use tui_majo::net::room::lobby::{
    JoinError, LeaveOutcome, Room, RoomLifecycle, Slot, StartOutcome,
};
use tui_majo::net::room::zerotrust::compute_session_label;

const AI_TOKENS: [u128; 4] = [101, 102, 103, 104];

fn slot(i: usize, ready: bool, seat: Option<Seat>, is_ai: bool) -> Slot {
    Slot {
        id: (i + 1) as u32,
        nickname: format!("p{}", i + 1),
        ready,
        seat,
        is_ai,
        is_host: i == 0,
        connected: true,
        online: true,
        reconnect_token: 1000 + i as u128,
        in_grace: false,
    }
}

/// A room in the lobby with `humans` players (the first is the host; only the
/// host is ready).
fn room_in_lobby(humans: usize) -> Room {
    let mut room = Room::new("abcd-1234".to_string(), "host".to_string());
    for i in 0..humans {
        room.slots.push(slot(i, i == 0, None, false));
    }
    room.next_player_id = (humans + 1) as u32;
    room
}

/// A room in a hand: ids 1..4 sit East..North; the seats in `humans` are
/// human, the others AI.
fn room_in_game(humans: &[Seat]) -> Room {
    let mut room = Room::new("abcd-1234".to_string(), "host".to_string());
    let seats = [Seat::East, Seat::South, Seat::West, Seat::North];
    for (i, seat) in seats.iter().enumerate() {
        room.slots.push(slot(i, true, Some(*seat), !humans.contains(seat)));
    }
    room.next_player_id = 5;
    room.state = RoomLifecycle::InGame;
    room
}

#[test]
fn tests_host_join_alone() {
    let mut room = Room::new("r".to_string(), "host".to_string());
    let j = room.handle_join("host".to_string(), None, 7).unwrap();
    assert_eq!(j.player_id, 1);
    assert!(!j.reconnected);
    assert!(room.slots[0].is_host);
    assert!(room.slots[0].ready);
    assert!(room.pending_host_nickname.is_none());
}

#[test]
fn tests_second_player_not_host() {
    let mut room = Room::new("r".to_string(), "h".to_string());
    let host = room.handle_join("host".to_string(), None, 7).unwrap();
    let other = room.handle_join("other".to_string(), None, 8).unwrap();
    assert_eq!(host.player_id, 1);
    assert_eq!(other.player_id, 2);
    assert!(!room.slots[1].is_host);
    assert!(!room.slots[1].ready);
}

#[test]
fn tests_start_game_with_one_human_three_ai() {
    let mut room = Room::new("r".to_string(), "h".to_string());
    let host = room.handle_join("host".to_string(), None, 7).unwrap();
    let out = room.handle_start_game(host.player_id, AI_TOKENS);
    assert!(matches!(out, StartOutcome::Standard { downgraded: false }));
    assert_eq!(room.state, RoomLifecycle::InGame);
    assert_eq!(room.slots.len(), 4);
    assert_eq!(room.slots[0].seat, Some(Seat::East));
    assert_eq!(room.slots[1].nickname, "AI 2");
    assert_eq!(room.slots[3].nickname, "AI 4");
    assert_eq!(room.slots[3].seat, Some(Seat::North));
    assert!(room.slots[1..].iter().all(|s| s.is_ai && s.ready && !s.is_host));
    assert_eq!(room.slots[2].reconnect_token, 103);
    assert_eq!(room.next_player_id, 5);
}

#[test]
fn tests_host_leaves_room_dissolves() {
    let mut room = room_in_lobby(2);
    assert_eq!(room.handle_leave(1), LeaveOutcome::Dissolved);
    assert!(room.slots.is_empty());
    assert_eq!(room.state, RoomLifecycle::Lobby);
}

#[test]
fn tests_reconnect_with_token_resumes_seat() {
    let mut room = Room::new("r".to_string(), "h".to_string());
    let host = room.handle_join("host".to_string(), None, 7).unwrap();
    let alice = room.handle_join("alice".to_string(), None, 8).unwrap();
    room.mark_disconnected(alice.player_id);
    let back = room.handle_join("alice2".to_string(), Some(alice.reconnect_token), 9).unwrap();
    assert_ne!(back.player_id, host.player_id);
    assert_eq!(back.player_id, alice.player_id);
    assert_eq!(back.reconnect_token, alice.reconnect_token);
    assert!(back.reconnected);
    assert_eq!(room.slots.len(), 2);
    assert_eq!(room.slots[1].nickname, "alice2");
    assert!(room.slots[1].online && !room.slots[1].in_grace);
}

#[test]
fn is_seat_ai_detects_human_and_ai() {
    let room = room_in_game(&[Seat::East]);
    assert!(!room.is_seat_ai(Seat::East));
    assert!(room.is_seat_ai(Seat::South));
    assert!(room.is_seat_ai(Seat::West));
}

#[test]
fn is_seat_ai_disconnected_human_treated_as_ai() {
    let mut room = room_in_game(&[Seat::East, Seat::South]);
    room.slots[1].connected = false;
    assert!(room.is_seat_ai(Seat::South));
    room.slots[1].in_grace = true;
    assert!(!room.is_seat_ai(Seat::South));
}

#[test]
fn handle_join_returns_room_full_when_4_slots_taken() {
    let mut room = room_in_lobby(4);
    assert!(matches!(room.handle_join("late".to_string(), None, 9), Err(JoinError::RoomFull)));
}

#[test]
fn handle_join_returns_already_in_game_when_state_non_lobby() {
    let mut room = room_in_game(&[Seat::East]);
    assert!(matches!(room.handle_join("late".to_string(), None, 9), Err(JoinError::AlreadyInGame)));
}

#[test]
fn handle_join_unknown_token_joins_as_new_player() {
    let mut room = room_in_lobby(1);
    let j = room.handle_join("x".to_string(), Some(424242), 9).unwrap();
    assert_eq!(j.player_id, 2);
    assert_eq!(j.reconnect_token, 9);
    assert!(!j.reconnected);
}

#[test]
fn handle_ready_in_game_is_noop() {
    let mut room = room_in_game(&[Seat::East, Seat::South]);
    let before: Vec<bool> = room.slots.iter().map(|s| s.ready).collect();
    assert!(!room.handle_ready(2, false));
    let after: Vec<bool> = room.slots.iter().map(|s| s.ready).collect();
    assert_eq!(before, after);
}

#[test]
fn handle_ready_host_cannot_unready() {
    let mut room = room_in_lobby(2);
    room.handle_ready(1, false);
    assert!(room.slots[0].ready);
}

#[test]
fn handle_ready_non_host_can_set_ready() {
    let mut room = room_in_lobby(2);
    room.handle_ready(2, true);
    assert!(room.slots[1].ready);
    room.handle_ready(2, false);
    assert!(!room.slots[1].ready);
}

#[test]
fn handle_update_config_in_game_is_noop() {
    let room = room_in_game(&[Seat::East]);
    assert!(!room.may_update_config(1));
}

#[test]
fn handle_update_config_non_host_is_noop_in_lobby() {
    let room = room_in_lobby(2);
    assert!(!room.may_update_config(2));
}

#[test]
fn handle_update_config_host_in_lobby_updates() {
    let room = room_in_lobby(1);
    assert!(room.may_update_config(1));
}

#[test]
fn handle_start_game_non_host_is_noop() {
    let mut room = room_in_lobby(2);
    assert!(matches!(room.handle_start_game(2, AI_TOKENS), StartOutcome::Ignored));
    assert_eq!(room.state, RoomLifecycle::Lobby);
}

#[test]
fn handle_start_game_in_game_is_noop() {
    let mut room = room_in_game(&[Seat::East]);
    assert!(matches!(room.handle_start_game(1, AI_TOKENS), StartOutcome::Ignored));
    assert_eq!(room.state, RoomLifecycle::InGame);
}

#[test]
fn handle_start_game_not_all_ready_sends_error() {
    let mut room = room_in_lobby(2);
    assert!(matches!(room.handle_start_game(1, AI_TOKENS), StartOutcome::NotAllReady));
    assert_eq!(room.state, RoomLifecycle::Lobby);
}

#[test]
fn zerotrust_falls_back_to_standard_when_under_4_humans() {
    let mut room = room_in_lobby(2);
    room.mode = RoomMode::ZeroTrust;
    room.handle_ready(2, true);
    assert!(matches!(room.handle_start_game(1, AI_TOKENS), StartOutcome::Standard { downgraded: true }));
    assert_eq!(room.mode, RoomMode::Standard);
    assert_eq!(room.state, RoomLifecycle::InGame);
    assert_eq!(room.slots.len(), 4);
}

#[test]
fn zerotrust_4_humans_emits_mp_start() {
    let mut room = room_in_lobby(4);
    room.mode = RoomMode::ZeroTrust;
    for id in 2..=4 {
        room.handle_ready(id, true);
    }
    for id in 1..=4u32 {
        room.associate_peer(id, vec![id as u8; 3]);
    }
    match room.handle_start_game(1, AI_TOKENS) {
        StartOutcome::ZeroTrust { all_peer_ids, session_label, deck_size, cnc_k_rounds } => {
            assert_eq!(all_peer_ids, vec![vec![1; 3], vec![2; 3], vec![3; 3], vec![4; 3]]);
            assert_eq!(session_label, compute_session_label("abcd-1234", &all_peer_ids));
            assert_eq!(session_label.len(), 32);
            assert_eq!(deck_size, 136);
            assert_eq!(cnc_k_rounds, 80);
        }
        other => panic!("expected a zero-trust start, got {:?}", other),
    }
    assert_eq!(room.state, RoomLifecycle::InGame);
    assert_eq!(room.slots[3].seat, Some(Seat::North));
}

#[test]
fn zerotrust_start_waits_for_missing_peer_id() {
    let mut room = room_in_lobby(4);
    room.mode = RoomMode::ZeroTrust;
    for id in 2..=4 {
        room.handle_ready(id, true);
    }
    room.associate_peer(1, vec![1]);
    room.associate_peer(2, vec![2]);
    room.associate_peer(4, vec![4]);
    assert!(matches!(room.handle_start_game(1, AI_TOKENS), StartOutcome::ZeroTrustMissingPeer { index: 2 }));
    assert_eq!(room.state, RoomLifecycle::Lobby);
    assert_eq!(room.mode, RoomMode::ZeroTrust);
}

#[test]
fn handle_back_to_room_only_in_game_end() {
    let mut room = room_in_game(&[Seat::East]);
    assert!(!room.handle_back_to_room(1));
    assert_eq!(room.state, RoomLifecycle::InGame);
}

#[test]
fn handle_back_to_room_in_game_end_resets_to_lobby() {
    let mut room = room_in_game(&[Seat::East]);
    room.state = RoomLifecycle::GameEnd;
    assert!(room.handle_back_to_room(1));
    assert_eq!(room.state, RoomLifecycle::Lobby);
    assert!(room.slots.iter().all(|s| !s.is_ai));
    assert!(room.slots[0].seat.is_none());
}

#[test]
fn handle_continue_game_in_lobby_is_noop() {
    let mut room = room_in_lobby(1);
    assert!(!room.handle_continue_game(1));
    assert_eq!(room.state, RoomLifecycle::Lobby);
}

#[test]
fn handle_continue_game_non_host_in_game_end_is_noop() {
    let mut room = room_in_game(&[Seat::East, Seat::South]);
    room.state = RoomLifecycle::GameEnd;
    assert!(!room.handle_continue_game(2));
    assert_eq!(room.state, RoomLifecycle::GameEnd);
}

#[test]
fn handle_continue_game_host_in_game_end_starts_new_round() {
    let mut room = room_in_game(&[Seat::East]);
    room.state = RoomLifecycle::GameEnd;
    assert!(room.handle_continue_game(1));
    assert_eq!(room.state, RoomLifecycle::InGame);
}

#[test]
fn handle_leave_unknown_player_is_noop() {
    let mut room = room_in_lobby(2);
    let before = room.slots.len();
    assert_eq!(room.handle_leave(999), LeaveOutcome::Unknown);
    assert_eq!(room.slots.len(), before);
}

#[test]
fn handle_leave_lobby_non_host_removes_slot() {
    let mut room = room_in_lobby(2);
    assert_eq!(room.handle_leave(2), LeaveOutcome::Removed);
    assert_eq!(room.slots.len(), 1);
    assert_eq!(room.slots[0].id, 1);
}

#[test]
fn handle_leave_in_game_non_host_marks_ai_keeps_slot() {
    let mut room = room_in_game(&[Seat::East, Seat::South]);
    assert_eq!(room.handle_leave(2), LeaveOutcome::TakenOverByAi);
    let south = room.slots.iter().find(|s| s.id == 2).expect("still there");
    assert!(south.is_ai);
    assert!(!south.connected);
    assert!(!south.online);
    assert!(south.nickname.contains("AI"));
    assert_eq!(south.nickname, "AI (p2 离开)");
}

#[test]
fn on_reconnect_grace_timeout_clears_disconnected_at_when_still_offline() {
    let mut room = room_in_lobby(2);
    room.slots[1].connected = false;
    room.slots[1].online = false;
    room.slots[1].in_grace = true;
    assert!(room.on_reconnect_grace_timeout(2));
    assert!(!room.slots[1].in_grace);
}

#[test]
fn on_reconnect_grace_timeout_does_nothing_when_already_reconnected() {
    let mut room = room_in_lobby(2);
    room.slots[1].connected = true;
    assert!(!room.on_reconnect_grace_timeout(2));
    assert!(room.slots[1].connected);
}

#[test]
fn reset_to_lobby_removes_ai_and_clears_seats() {
    let mut room = room_in_game(&[Seat::East]);
    room.reset_to_lobby();
    assert_eq!(room.slots.len(), 1);
    assert!(room.slots[0].seat.is_none());
    assert!(room.slots[0].ready);
    assert_eq!(room.state, RoomLifecycle::Lobby);
}

#[test]
fn mark_disconnected_marks_slot_offline() {
    let mut room = room_in_lobby(2);
    room.mark_disconnected(2);
    assert!(!room.slots[1].online);
    assert!(room.slots[1].in_grace);
    assert!(room.slots[1].connected);
}

#[test]
fn set_local_peer_id_associates_existing_host_slot() {
    let mut room = room_in_lobby(1);
    let bytes = vec![9u8, 8, 7];
    room.set_local_peer_id(bytes.clone());
    assert_eq!(room.player_peers.get(&1), Some(&bytes));
    assert_eq!(room.pending_host_peer_id, Some(bytes));
}

#[test]
fn associate_peer_inserts_into_player_peers() {
    let mut room = room_in_lobby(2);
    let bytes = vec![1u8, 2, 3];
    room.associate_peer(2, bytes.clone());
    assert_eq!(room.player_peers.get(&2), Some(&bytes));
}

#[test]
fn host_joining_after_peer_id_gets_it() {
    let mut room = Room::new("r".to_string(), "h".to_string());
    room.set_local_peer_id(vec![5, 5]);
    let j = room.handle_join("host".to_string(), None, 1).unwrap();
    assert_eq!(room.player_peers.get(&j.player_id), Some(&vec![5, 5]));
}

#[test]
fn queries_by_player() {
    let room = room_in_game(&[Seat::East, Seat::South]);
    assert!(room.is_host(1));
    assert!(!room.is_host(2));
    assert_eq!(room.player_seat(3), Some(Seat::West));
    assert_eq!(room.player_seat(99), None);
}

#[test]
fn session_label_ignores_peer_order() {
    let a = vec![vec![3u8, 1], vec![1u8, 2, 3], vec![1u8, 2], vec![0u8]];
    let mut b = a.clone();
    b.reverse();
    let la = compute_session_label("room", &a);
    assert_eq!(la, compute_session_label("room", &b));
    assert_ne!(la, compute_session_label("room2", &a));
    assert_eq!(la.len(), 32);
}

#[test]
fn session_label_is_sha256_of_framed_sorted_ids() {
    let ids = vec![vec![2u8], vec![1u8, 1]];
    let mut h = Sha256::new();
    h.update(b"tui-majo/mp/session/v1\0");
    h.update(b"rid");
    h.update([0u8]);
    h.update(2u32.to_le_bytes());
    h.update([1u8, 1]);
    h.update(1u32.to_le_bytes());
    h.update([2u8]);
    assert_eq!(compute_session_label("rid", &ids), h.finalize().to_vec());
}

#[test]
fn join_error_messages_tell_the_reason() {
    assert_eq!(JoinError::RoomFull.message(), "房间已满");
    assert_eq!(JoinError::AlreadyInGame.message(), "房间已开局");
    assert_eq!(JoinError::InvalidReconnectToken.message(), "重连 token 无效");
}

#[test]
fn room_view_no_host_returns_zero_host_id() {
    let mut room = Room::new("r".to_string(), "h".to_string());
    let host = room.handle_join("host".to_string(), None, 7).unwrap();
    room.handle_start_game(host.player_id, AI_TOKENS);
    for slot in &mut room.slots {
        slot.is_host = false;
    }
    assert_eq!(room.host_id(), 0);
}

#[test]
fn room_view_marks_host_correctly() {
    let mut room = Room::new("r".to_string(), "h".to_string());
    let host = room.handle_join("host".to_string(), None, 7).unwrap();
    room.handle_start_game(host.player_id, AI_TOKENS);
    assert_eq!(room.host_id(), 1);
    assert_eq!(room.slots.len(), 4);
}
