use libp2p::{Multiaddr, PeerId};
use tui_majo::net::p2p::browser::{BrowserEvent, BrowserState};
use tui_majo::net::p2p::host::{
    dial_addr, lobby_announcement, relay_announcement, HostSwarmState, LobbyDynState, LobbyMeta,
    NatReachability,
};
use tui_majo::net::p2p::mode::RoomMode;
use tui_majo::net::room::lobby::{Room, RoomLifecycle};

fn new_host_peer() -> PeerId {
    let kp = libp2p::identity::Keypair::generate_ed25519();
    PeerId::from(&kp.public())
}

fn addr_bytes(s: &str) -> Vec<u8> {
    s.parse::<Multiaddr>().unwrap().to_vec()
}

fn text(bytes: &[u8]) -> String {
    Multiaddr::try_from(bytes.to_vec()).unwrap().to_string()
}

fn meta() -> LobbyMeta {
    LobbyMeta { host_nick: "Host".into(), room_id: "abcd-1234".into(), mode: RoomMode::ZeroTrust }
}

#[test]
fn lobby_dyn_state_default_is_empty_lobby() {
    let d = LobbyDynState::default();
    assert_eq!(d.players, 0);
    assert_eq!(d.lifecycle, "lobby");
}

#[test]
fn lobby_announcement_needs_an_address() {
    let peer = new_host_peer();
    let r = lobby_announcement(&meta(), &LobbyDynState::default(), &peer.to_bytes(), &vec![], 5);
    assert!(r.is_none());
}

#[test]
fn lobby_announcement_carries_room_and_addresses() {
    let peer = new_host_peer();
    let dyn_state = LobbyDynState { players: 3, lifecycle: "in_game".into() };
    let addrs = vec![addr_bytes("/ip4/1.2.3.4/udp/4001/quic-v1"), addr_bytes("/ip4/1.2.3.4/tcp/4001")];
    let a = lobby_announcement(&meta(), &dyn_state, &peer.to_bytes(), &addrs, 1234).unwrap();
    assert_eq!(a.schema_version, 1);
    assert_eq!(a.host_peer_id, peer.to_string());
    assert_eq!(a.host_nick, "Host");
    assert_eq!(a.players, 3);
    assert_eq!(a.lifecycle, "in_game");
    assert_eq!(a.room_id, "abcd-1234");
    assert_eq!(a.multiaddrs, vec!["/ip4/1.2.3.4/udp/4001/quic-v1".to_string(), "/ip4/1.2.3.4/tcp/4001".to_string()]);
    assert_eq!(a.timestamp_unix_ms, 1234);
    assert_eq!(a.mode, RoomMode::ZeroTrust);
}

#[test]
fn relay_announcement_needs_a_public_address() {
    let peer = new_host_peer();
    assert!(relay_announcement(&peer.to_bytes(), &vec![], 7).is_none());
    let a = relay_announcement(&peer.to_bytes(), &vec![addr_bytes("/ip4/8.8.8.8/udp/4001/quic-v1")], 7).unwrap();
    assert_eq!(a.schema_version, 1);
    assert_eq!(a.peer_id, peer.to_string());
    assert_eq!(a.multiaddrs, vec!["/ip4/8.8.8.8/udp/4001/quic-v1".to_string()]);
    assert_eq!(a.timestamp_unix_ms, 7);
}

#[test]
fn published_lobby_record_is_listed_by_a_browser() {
    let peer = new_host_peer();
    let dyn_state = LobbyDynState { players: 2, lifecycle: "lobby".into() };
    let addrs = vec![addr_bytes("/ip4/1.2.3.4/udp/4001/quic-v1")];
    let a = lobby_announcement(&meta(), &dyn_state, &peer.to_bytes(), &addrs, 1_000).unwrap();
    let mut br = BrowserState::new();
    br.apply(BrowserEvent::LobbyAnnouncement(a));
    let rooms = br.rooms_at(2_000);
    assert_eq!(rooms.len(), 1);
    assert_eq!(rooms[0].peer_id, peer.to_bytes());
    assert_eq!(rooms[0].host_nick, "Host");
    assert_eq!(rooms[0].players, 2);
    assert_eq!(rooms[0].room_id, "abcd-1234");
    assert_eq!(rooms[0].mode, RoomMode::ZeroTrust);
    assert_eq!(rooms[0].addrs, addrs);
}

#[test]
fn dial_addr_prefers_quic_and_names_the_host() {
    let local = new_host_peer();
    let addrs = vec![addr_bytes("/ip4/10.0.0.1/tcp/4001"), addr_bytes("/ip4/10.0.0.1/udp/4001/quic-v1")];
    let d = dial_addr(&addrs, &local.to_bytes()).unwrap();
    assert_eq!(text(&d), format!("/ip4/10.0.0.1/udp/4001/quic-v1/p2p/{local}"));
    let d = dial_addr(&vec![addr_bytes("/ip4/10.0.0.1/tcp/4001")], &local.to_bytes()).unwrap();
    assert_eq!(text(&d), format!("/ip4/10.0.0.1/tcp/4001/p2p/{local}"));
    assert!(dial_addr(&vec![], &local.to_bytes()).is_none());
}

#[test]
fn host_state_keeps_bootstrap_relays_that_name_their_peer() {
    let local = new_host_peer();
    let relay = new_host_peer();
    let relays = vec![
        addr_bytes(&format!("/ip4/5.6.7.8/udp/4001/quic-v1/p2p/{relay}")),
        addr_bytes("/ip4/9.9.9.9/udp/4001/quic-v1"),
    ];
    let st = HostSwarmState::new(local.to_bytes(), &relays);
    assert_eq!(st.pending_circuit_listens.len(), 1);
    assert_eq!(st.pending_circuit_listens[0].0, relay.to_bytes());
    assert_eq!(st.pending_circuit_listens[0].1, relays[0]);
    assert!(st.peers.is_empty());
    assert!(st.listen_addrs.is_empty());
    assert!(st.public_addrs.is_empty());
}

#[test]
fn identify_of_hop_relay_gives_circuit_address_once() {
    let local = new_host_peer();
    let relay = new_host_peer();
    let relay_addr = format!("/ip4/5.6.7.8/udp/4001/quic-v1/p2p/{relay}");
    let mut st = HostSwarmState::new(local.to_bytes(), &vec![addr_bytes(&relay_addr)]);
    let protocols = vec!["/ipfs/id/1.0.0".to_string(), "/libp2p/circuit/relay/0.2.0/hop".to_string()];
    let c = st.on_identify(&relay.to_bytes(), &protocols).unwrap();
    assert_eq!(text(&c), format!("{relay_addr}/p2p-circuit"));
    assert!(st.pending_circuit_listens.is_empty());
    assert!(st.on_identify(&relay.to_bytes(), &protocols).is_none());
}

#[test]
fn identify_without_hop_drops_the_pending_relay() {
    let local = new_host_peer();
    let relay = new_host_peer();
    let relay_addr = format!("/ip4/5.6.7.8/udp/4001/quic-v1/p2p/{relay}");
    let mut st = HostSwarmState::new(local.to_bytes(), &vec![addr_bytes(&relay_addr)]);
    assert!(st.on_identify(&relay.to_bytes(), &vec!["/ipfs/id/1.0.0".to_string()]).is_none());
    assert!(st.pending_circuit_listens.is_empty());
}

#[test]
fn identify_of_unknown_peer_changes_nothing() {
    let local = new_host_peer();
    let relay = new_host_peer();
    let relay_addr = format!("/ip4/5.6.7.8/udp/4001/quic-v1/p2p/{relay}");
    let mut st = HostSwarmState::new(local.to_bytes(), &vec![addr_bytes(&relay_addr)]);
    let other = new_host_peer();
    let protocols = vec!["/libp2p/circuit/relay/0.2.0/hop".to_string()];
    assert!(st.on_identify(&other.to_bytes(), &protocols).is_none());
    assert_eq!(st.pending_circuit_listens.len(), 1);
}

#[test]
fn new_listen_addr_appends_local_peer_and_dedupes() {
    let local = new_host_peer();
    let mut st = HostSwarmState::new(local.to_bytes(), &vec![]);
    let full = st.on_new_listen_addr(addr_bytes("/ip4/10.0.0.1/udp/4001/quic-v1"));
    assert_eq!(text(&full), format!("/ip4/10.0.0.1/udp/4001/quic-v1/p2p/{local}"));
    st.on_new_listen_addr(addr_bytes("/ip4/10.0.0.1/udp/4001/quic-v1"));
    assert_eq!(st.listen_addrs.len(), 1);
    let already = format!("/ip4/10.0.0.2/tcp/4001/p2p/{local}");
    let full2 = st.on_new_listen_addr(addr_bytes(&already));
    assert_eq!(text(&full2), already);
    assert_eq!(st.listen_addrs.len(), 2);
}

#[test]
fn nat_status_builds_and_withdraws_the_relay_offer() {
    let local = new_host_peer();
    let mut st = HostSwarmState::new(local.to_bytes(), &vec![]);
    st.on_nat_status(&NatReachability::Public(addr_bytes("/ip4/8.8.8.8/udp/4001/quic-v1")));
    st.on_nat_status(&NatReachability::Public(addr_bytes("/ip4/8.8.8.8/udp/4001/quic-v1")));
    assert_eq!(st.public_addrs.len(), 1);
    assert_eq!(text(&st.public_addrs[0]), format!("/ip4/8.8.8.8/udp/4001/quic-v1/p2p/{local}"));
    let (_, relays) = st.announcements(&meta(), &LobbyDynState::default(), 10);
    assert!(relays.is_some());
    st.on_nat_status(&NatReachability::Private);
    assert!(st.public_addrs.is_empty());
    let (_, relays) = st.announcements(&meta(), &LobbyDynState::default(), 10);
    assert!(relays.is_none());
}

#[test]
fn joined_peer_is_routed_and_forgotten_on_close() {
    let local = new_host_peer();
    let peer = new_host_peer();
    let mut st = HostSwarmState::new(local.to_bytes(), &vec![]);
    assert_eq!(st.player_of(&peer.to_bytes()), None);
    st.on_join_accepted(peer.to_bytes(), 7);
    assert_eq!(st.player_of(&peer.to_bytes()), Some(7));
    assert_eq!(st.on_connection_closed(&peer.to_bytes()), Some(7));
    assert_eq!(st.player_of(&peer.to_bytes()), None);
    assert_eq!(st.on_connection_closed(&peer.to_bytes()), None);
}

#[test]
fn announcements_follow_listen_addresses() {
    let local = new_host_peer();
    let mut st = HostSwarmState::new(local.to_bytes(), &vec![]);
    let (lobby, relays) = st.announcements(&meta(), &LobbyDynState::default(), 10);
    assert!(lobby.is_none());
    assert!(relays.is_none());
    st.on_new_listen_addr(addr_bytes("/ip4/10.0.0.1/udp/4001/quic-v1"));
    let (lobby, _) = st.announcements(&meta(), &LobbyDynState::default(), 10);
    let lobby = lobby.unwrap();
    assert_eq!(lobby.multiaddrs, vec![format!("/ip4/10.0.0.1/udp/4001/quic-v1/p2p/{local}")]);
    assert_eq!(lobby.lifecycle, "lobby");
}

#[test]
fn room_lobby_dyn_state_counts_humans() {
    let mut room = Room::new("r".into(), "Host".into());
    let d = room.lobby_dyn_state();
    assert_eq!(d.players, 0);
    assert_eq!(d.lifecycle, "lobby");
    room.handle_join("Host".into(), None, 1).unwrap();
    room.handle_join("Bob".into(), None, 2).unwrap();
    let d = room.lobby_dyn_state();
    assert_eq!(d.players, 2);
    room.state = RoomLifecycle::InGame;
    assert_eq!(room.lobby_dyn_state().lifecycle, "in_game");
    room.state = RoomLifecycle::GameEnd;
    assert_eq!(room.lobby_dyn_state().lifecycle, "game_end");
}

#[test]
fn room_lobby_dyn_state_leaves_ai_seats_out() {
    let mut room = Room::new("r".into(), "Host".into());
    let host = room.handle_join("Host".into(), None, 1).unwrap();
    room.handle_start_game(host.player_id, [11, 12, 13, 14]);
    assert_eq!(room.slots.len(), 4);
    let d = room.lobby_dyn_state();
    assert_eq!(d.players, 1);
    assert_eq!(d.lifecycle, "in_game");
}

#[test]
fn published_relay_offer_is_offered_by_a_browser() {
    let peer = new_host_peer();
    let a = relay_announcement(&peer.to_bytes(), &vec![addr_bytes("/ip4/8.8.8.8/udp/4001/quic-v1")], 1_000).unwrap();
    let mut br = BrowserState::new();
    br.apply(BrowserEvent::RelayAnnouncement(a));
    let relays = br.relays_at(2_000);
    assert_eq!(relays.len(), 1);
    assert_eq!(text(&relays[0]), format!("/ip4/8.8.8.8/udp/4001/quic-v1/p2p/{peer}"));
}
