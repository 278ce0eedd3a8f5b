//! A joiner's way into a remote room: dial the host named in the address,
//! send the join once connected, and take the host's first reply as the
//! verdict. The swarm task dials, sends and waits; the verdicts are decided
//! here.

use vstd::prelude::*;
use vstd::string::StringExecFns;
use crate::mental_poker::point::bytes_eq;
use super::host::{multiaddr_peer, peer_of_multiaddr};

verus! {

/// Why joining a remote room failed.
#[derive(Debug, Clone, PartialEq, Eq)]
pub enum JoinRemoteError {
    /// The address is unusable.
    InvalidAddr(String),
    /// Dialling the host failed.
    Dial(String),
    /// The host answered something unexpected.
    Protocol(String),
    /// The host refused the join, with its reason.
    Refused(String),
    /// No answer in time.
    Timeout,
}

/// Where the join stands.
#[derive(Debug, Clone, Copy, PartialEq, Eq, Structural)]
pub enum JoinStage {
    /// Dialled; waiting for the connection to the host.
    Connecting,
    /// The join is sent; waiting for the host's first reply.
    AwaitingWelcome,
    /// Over, one way or the other.
    Done,
}

/// What the host's first reply is.
#[derive(Debug, Clone)]
pub enum HostReply {
    Welcome { player_id: u32, reconnect_token: u128 },
    Error { message: String },
    /// Any other message; `kind` names it.
    Other { kind: String },
}

/// What the swarm reports while joining.
#[derive(Debug, Clone)]
pub enum JoinInput {
    ConnectionEstablished { peer: Vec<u8> },
    OutgoingConnectionError { error: String },
    /// A message from a peer on the host-to-client protocol.
    Message { peer: Vec<u8>, reply: HostReply },
    /// The current wait ran out of time.
    TimedOut,
}

/// What to do next.
#[derive(Debug)]
pub enum JoinStep {
    /// Keep waiting.
    Wait,
    /// Connected: send the join request to the host.
    SendJoin,
    /// The host welcomed the player.
    Joined { player_id: u32, reconnect_token: u128 },
    Failed(JoinRemoteError),
}

/// A join in progress.
#[derive(Debug)]
pub struct JoinFlow {
    pub host_peer_id: Vec<u8>,
    pub stage: JoinStage,
}

/// The message of a failure for an address without a peer id.
pub open spec fn missing_peer_text() -> Seq<char> {
    "multiaddr 缺少 /p2p/<peer-id>"@
}

/// The message of a failure for a first reply that is neither a welcome nor
/// an error.
pub open spec fn unexpected_reply_text(kind: Seq<char>) -> Seq<char> {
    "首条非 Welcome/Error: "@ + kind
}

impl JoinFlow {
    /// Starts joining the room at `addr`, which must name the host's peer id.
    pub fn start(addr: &[u8]) -> (r: Result<JoinFlow, JoinRemoteError>)
        ensures
            match multiaddr_peer(addr@) {
                Some(p) => r matches Ok(f) && f.host_peer_id@ == p && f.stage == JoinStage::Connecting,
                None => r matches Err(JoinRemoteError::InvalidAddr(m)) && m@ == missing_peer_text(),
            },
    {
        match peer_of_multiaddr(addr) {
            Some(p) => Ok(JoinFlow { host_peer_id: p, stage: JoinStage::Connecting }),
            None => Err(JoinRemoteError::InvalidAddr(String::from_str("multiaddr 缺少 /p2p/<peer-id>"))),
        }
    }

    /// Takes in what the swarm reported.
    ///
    /// While connecting: the connection to the host makes the joiner send its
    /// join; any failed outgoing connection fails the join; a timeout fails
    /// it. While awaiting the welcome: the host's first message decides (a
    /// welcome joins, an error is a refusal, anything else a protocol
    /// failure); a timeout fails it. Everything else is waited past. Once
    /// done, nothing changes.
    pub fn step(&mut self, input: JoinInput) -> (r: JoinStep)
        ensures
            final(self).host_peer_id@ == old(self).host_peer_id@,
            match (old(self).stage, input) {
                (JoinStage::Connecting, JoinInput::ConnectionEstablished { peer }) => if peer@ == old(self).host_peer_id@ {
                    r is SendJoin && final(self).stage == JoinStage::AwaitingWelcome
                } else {
                    r is Wait && final(self).stage == JoinStage::Connecting
                },
                (JoinStage::Connecting, JoinInput::OutgoingConnectionError { error }) => (r matches JoinStep::Failed(
                    JoinRemoteError::Dial(e),
                ) && e@ == error@) && final(self).stage == JoinStage::Done,
                (JoinStage::AwaitingWelcome, JoinInput::Message { peer, reply }) => if peer@ == old(self).host_peer_id@ {
                    final(self).stage == JoinStage::Done && match reply {
                        HostReply::Welcome { player_id, reconnect_token } => r == (JoinStep::Joined {
                            player_id,
                            reconnect_token,
                        }),
                        HostReply::Error { message } => r matches JoinStep::Failed(JoinRemoteError::Refused(m))
                            && m@ == message@,
                        HostReply::Other { kind } => r matches JoinStep::Failed(JoinRemoteError::Protocol(m))
                            && m@ == unexpected_reply_text(kind@),
                    }
                } else {
                    r is Wait && final(self).stage == JoinStage::AwaitingWelcome
                },
                (JoinStage::Done, _) => r is Wait && final(self).stage == JoinStage::Done,
                (_, JoinInput::TimedOut) => r matches JoinStep::Failed(JoinRemoteError::Timeout) && final(self).stage
                    == JoinStage::Done,
                (s, _) => r is Wait && final(self).stage == s,
            },
    {
        match self.stage {
            JoinStage::Done => JoinStep::Wait,
            JoinStage::Connecting => match input {
                JoinInput::ConnectionEstablished { peer } => {
                    if bytes_eq(peer.as_slice(), self.host_peer_id.as_slice()) {
                        self.stage = JoinStage::AwaitingWelcome;
                        JoinStep::SendJoin
                    } else {
                        JoinStep::Wait
                    }
                },
                JoinInput::OutgoingConnectionError { error } => {
                    self.stage = JoinStage::Done;
                    JoinStep::Failed(JoinRemoteError::Dial(error))
                },
                JoinInput::TimedOut => {
                    self.stage = JoinStage::Done;
                    JoinStep::Failed(JoinRemoteError::Timeout)
                },
                JoinInput::Message { .. } => JoinStep::Wait,
            },
            JoinStage::AwaitingWelcome => match input {
                JoinInput::Message { peer, reply } => {
                    if bytes_eq(peer.as_slice(), self.host_peer_id.as_slice()) {
                        self.stage = JoinStage::Done;
                        match reply {
                            HostReply::Welcome { player_id, reconnect_token } => JoinStep::Joined {
                                player_id,
                                reconnect_token,
                            },
                            HostReply::Error { message } => JoinStep::Failed(JoinRemoteError::Refused(message)),
                            HostReply::Other { kind } => {
                                let mut m = String::from_str("首条非 Welcome/Error: ");
                                m.append(kind.as_str());
                                JoinStep::Failed(JoinRemoteError::Protocol(m))
                            },
                        }
                    } else {
                        JoinStep::Wait
                    }
                },
                JoinInput::TimedOut => {
                    self.stage = JoinStage::Done;
                    JoinStep::Failed(JoinRemoteError::Timeout)
                },
                _ => JoinStep::Wait,
            },
        }
    }
}

} // verus!
