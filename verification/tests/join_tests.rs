use libp2p::{Multiaddr, PeerId};
use tui_majo::net::p2p::join::{HostReply, JoinFlow, JoinInput, JoinRemoteError, JoinStage, JoinStep};

fn joiner_peer() -> PeerId {
    let kp = libp2p::identity::Keypair::generate_ed25519();
    PeerId::from(&kp.public())
}

fn flow_for(host: &PeerId) -> JoinFlow {
    let addr: Multiaddr = format!("/ip4/127.0.0.1/udp/4001/quic-v1/p2p/{host}").parse().unwrap();
    JoinFlow::start(&addr.to_vec()).unwrap()
}

#[test]
fn join_needs_the_hosts_peer_id_in_the_address() {
    let addr: Multiaddr = "/ip4/127.0.0.1/udp/4001/quic-v1".parse().unwrap();
    match JoinFlow::start(&addr.to_vec()) {
        Err(JoinRemoteError::InvalidAddr(m)) => assert_eq!(m, "multiaddr 缺少 /p2p/<peer-id>"),
        other => panic!("unexpected: {other:?}"),
    }
    let host = joiner_peer();
    let f = flow_for(&host);
    assert_eq!(f.host_peer_id, host.to_bytes());
    assert_eq!(f.stage, JoinStage::Connecting);
}

#[test]
fn join_sends_request_once_connected_to_host_and_is_welcomed() {
    let host = joiner_peer();
    let other = joiner_peer();
    let mut f = flow_for(&host);
    assert!(matches!(f.step(JoinInput::ConnectionEstablished { peer: other.to_bytes() }), JoinStep::Wait));
    assert!(matches!(f.step(JoinInput::ConnectionEstablished { peer: host.to_bytes() }), JoinStep::SendJoin));
    assert_eq!(f.stage, JoinStage::AwaitingWelcome);
    let welcome = HostReply::Welcome { player_id: 3, reconnect_token: 77 };
    assert!(matches!(
        f.step(JoinInput::Message { peer: other.to_bytes(), reply: welcome.clone() }),
        JoinStep::Wait
    ));
    match f.step(JoinInput::Message { peer: host.to_bytes(), reply: welcome }) {
        JoinStep::Joined { player_id, reconnect_token } => {
            assert_eq!(player_id, 3);
            assert_eq!(reconnect_token, 77);
        }
        other => panic!("unexpected: {other:?}"),
    }
    assert_eq!(f.stage, JoinStage::Done);
    assert!(matches!(f.step(JoinInput::TimedOut), JoinStep::Wait));
}

#[test]
fn join_refused_with_the_hosts_reason() {
    let host = joiner_peer();
    let mut f = flow_for(&host);
    f.step(JoinInput::ConnectionEstablished { peer: host.to_bytes() });
    match f.step(JoinInput::Message { peer: host.to_bytes(), reply: HostReply::Error { message: "房间已满".into() } }) {
        JoinStep::Failed(JoinRemoteError::Refused(m)) => assert_eq!(m, "房间已满"),
        other => panic!("unexpected: {other:?}"),
    }
}

#[test]
fn join_unexpected_first_reply_is_a_protocol_failure() {
    let host = joiner_peer();
    let mut f = flow_for(&host);
    f.step(JoinInput::ConnectionEstablished { peer: host.to_bytes() });
    match f.step(JoinInput::Message { peer: host.to_bytes(), reply: HostReply::Other { kind: "RoomUpdate".into() } }) {
        JoinStep::Failed(JoinRemoteError::Protocol(m)) => assert_eq!(m, "首条非 Welcome/Error: RoomUpdate"),
        other => panic!("unexpected: {other:?}"),
    }
}

#[test]
fn join_dial_error_and_timeouts_fail() {
    let host = joiner_peer();
    let mut f = flow_for(&host);
    match f.step(JoinInput::OutgoingConnectionError { error: "refused".into() }) {
        JoinStep::Failed(JoinRemoteError::Dial(e)) => assert_eq!(e, "refused"),
        other => panic!("unexpected: {other:?}"),
    }
    let mut f = flow_for(&host);
    assert!(matches!(f.step(JoinInput::TimedOut), JoinStep::Failed(JoinRemoteError::Timeout)));
    let mut f = flow_for(&host);
    f.step(JoinInput::ConnectionEstablished { peer: host.to_bytes() });
    assert!(matches!(
        f.step(JoinInput::OutgoingConnectionError { error: "late".into() }),
        JoinStep::Wait
    ));
    assert!(matches!(f.step(JoinInput::TimedOut), JoinStep::Failed(JoinRemoteError::Timeout)));
}
