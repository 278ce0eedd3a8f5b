use libp2p::PeerId;
use tui_majo::net::p2p::mp_bridge::{broadcast_targets, unicast_peer, unicast_target, MpBridgeError};

fn fake_peer_id(seed: u8) -> PeerId {
    let mut bytes = [0u8; 32];
    bytes[0] = seed;
    let kp = libp2p::identity::Keypair::ed25519_from_bytes(bytes).expect("keypair");
    PeerId::from(&kp.public())
}

#[test]
fn unicast_sends_swarm_command_with_target() {
    let p0 = fake_peer_id(10);
    let p1 = fake_peer_id(20);
    let p2 = fake_peer_id(30);
    let p3 = fake_peer_id(40);
    let peer_map: Vec<Vec<u8>> = vec![p0, p1, p2, p3].iter().map(|p| p.to_bytes()).collect();
    let target = unicast_peer(&peer_map, 2).unwrap();
    assert_eq!(PeerId::from_bytes(&target).unwrap(), p2);
}

#[test]
fn unicast_invalid_target_returns_err() {
    let peer_map: Vec<Vec<u8>> = (0..4).map(|i| fake_peer_id(i).to_bytes()).collect();
    let res = unicast_peer(&peer_map, 99);
    assert!(matches!(res, Err(MpBridgeError::InvalidTarget(99, 4))));
}

#[test]
fn broadcast_reaches_every_other_member() {
    assert_eq!(broadcast_targets(0, 4), vec![1, 2, 3]);
    assert_eq!(broadcast_targets(2, 4), vec![0, 1, 3]);
    assert_eq!(broadcast_targets(5, 3), vec![0, 1, 2]);
    assert!(broadcast_targets(0, 1).is_empty());
    assert!(broadcast_targets(0, 0).is_empty());
}

#[test]
fn mock_unicast_routes_by_index() {
    assert_eq!(unicast_target(1, 4, 3), Ok(Some(3)));
    assert_eq!(unicast_target(1, 4, 1), Ok(None));
    assert_eq!(unicast_target(1, 4, 4), Err(MpBridgeError::InvalidTarget(4, 4)));
    assert_eq!(unicast_target(0, 0, 0), Err(MpBridgeError::InvalidTarget(0, 0)));
}
