//! Names and records that peers exchange: identify agent prefix, gossipsub
//! topics, and the lobby and relay announcements.

use vstd::prelude::*;
use vstd::string::{StrSliceExecFns, StringExecFns};
use crate::net::text::{range_eq, str_eq};
use super::mode::RoomMode;

verus! {

/// Prefix of the identify agent version; the room metadata follows as
/// `k=v;k=v`.
pub const AGENT_PREFIX: &'static str = "tui-majo/";
/// Gossipsub topic of the online lobby.
pub const LOBBY_TOPIC: &'static str = "tui-majo/lobby/v1";
/// Prefix of a zero-trust room's broadcast topic:
/// the full topic is `tui-majo/mp/<room_id>/v1`.
pub const MP_TOPIC_PREFIX: &'static str = "tui-majo/mp/";
/// Gossipsub topic of the pool of relays offered by publicly reachable hosts.
pub const RELAYS_TOPIC: &'static str = "tui-majo/relays/v1";

/// Empty response of the request/response protocols.
#[derive(Debug, Clone, Copy, PartialEq, Eq)]
pub struct Ack;

/// The room record a host publishes on the lobby topic every few seconds.
/// The lobby keeps the latest one per host and drops it when stale.
#[derive(Debug, Clone)]
pub struct LobbyAnnouncement {
    pub schema_version: u32,
    /// The host's peer id, in its string form.
    pub host_peer_id: String,
    pub host_nick: String,
    pub players: u8,
    pub lifecycle: String,
    pub room_id: String,
    /// Every address the host can be dialled on.
    pub multiaddrs: Vec<String>,
    /// Unix milliseconds, for expiry.
    pub timestamp_unix_ms: i64,
    /// Trust mode; older records without it read as `Standard`.
    pub mode: RoomMode,
}

/// The record a publicly reachable node publishes on the relays topic so that
/// peers behind NAT can use it as a relay.
#[derive(Debug, Clone)]
pub struct RelayAnnouncement {
    pub schema_version: u32,
    /// The relay's peer id, in its string form.
    pub peer_id: String,
    /// Publicly dialable addresses.
    pub multiaddrs: Vec<String>,
    /// Unix milliseconds, for expiry.
    pub timestamp_unix_ms: i64,
}

/// The identify agent version that carries a room's metadata: the prefix,
/// then the metadata.
pub fn agent_version(agent_metadata: &str) -> (r: String)
    ensures
        r@ == AGENT_PREFIX@ + agent_metadata@,
{
    let mut t = String::from_str(AGENT_PREFIX);
    t.append(agent_metadata);
    t
}

/// The broadcast topic of a zero-trust room: `tui-majo/mp/<room_id>/v1`.
pub fn mp_topic_for_room(room_id: &str) -> (r: String)
    ensures
        r@ == MP_TOPIC_PREFIX@ + room_id@ + "/v1"@,
{
    let mut t = String::from_str(MP_TOPIC_PREFIX);
    t.append(room_id);
    t.append("/v1");
    t
}

/// What a gossipsub topic carries.
#[derive(Debug, Clone, Copy, PartialEq, Eq, Structural)]
pub enum TopicKind {
    /// Lobby records.
    Lobby,
    /// Relay offers.
    Relays,
    /// A zero-trust room's protocol messages.
    Mp,
    /// Anything else.
    Other,
}

/// The kind of a topic: the lobby or relays topic by name, a zero-trust
/// room's topic by its prefix.
pub open spec fn topic_kind(topic: Seq<char>) -> TopicKind {
    if topic == LOBBY_TOPIC@ {
        TopicKind::Lobby
    } else if topic == RELAYS_TOPIC@ {
        TopicKind::Relays
    } else if MP_TOPIC_PREFIX@.len() <= topic.len() && topic.take(MP_TOPIC_PREFIX@.len() as int) == MP_TOPIC_PREFIX@ {
        TopicKind::Mp
    } else {
        TopicKind::Other
    }
}

/// The kind of a gossipsub topic a message arrived on.
pub fn classify_topic(topic: &str) -> (r: TopicKind)
    ensures
        r == topic_kind(topic@),
{
    if str_eq(topic, LOBBY_TOPIC) {
        return TopicKind::Lobby;
    }
    if str_eq(topic, RELAYS_TOPIC) {
        return TopicKind::Relays;
    }
    let n = topic.unicode_len();
    let m = MP_TOPIC_PREFIX.unicode_len();
    if m <= n && range_eq(topic, 0, m, MP_TOPIC_PREFIX) {
        proof {
            assert(topic@.subrange(0, m as int) =~= topic@.take(m as int));
        }
        return TopicKind::Mp;
    }
    proof {
        if m <= n {
            assert(topic@.subrange(0, m as int) =~= topic@.take(m as int));
        }
    }
    TopicKind::Other
}

} // verus!
