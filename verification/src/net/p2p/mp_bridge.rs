//! Where a zero-trust player's outbound protocol messages go: a broadcast
//! reaches every other member, a unicast the member at one index. The bridge
//! task and the transports around it deliver; the routing is decided here.

use vstd::prelude::*;
use crate::mental_poker::point::copy_bytes;
use crate::net::mp::cmd::MentalPokerMsg;

verus! {

/// Why a message could not be handed to the transport.
#[derive(Debug, Clone, PartialEq, Eq)]
pub enum MpBridgeError {
    /// The transport's channel is closed.
    Closed,
    /// The target index is not below the number of players (target, number).
    InvalidTarget(usize, usize),
    /// Publishing failed.
    Publish(String),
}

/// A message from a peer on its way to the local player.
#[derive(Debug)]
pub struct MpInboundMsg {
    /// The sender's index among the members, if it is known.
    pub from: Option<usize>,
    pub msg: MentalPokerMsg,
}

/// The member indices below `n` other than `own`, in order.
pub open spec fn others(n: nat, own: int) -> Seq<usize>
    decreases n,
{
    if n == 0 {
        Seq::empty()
    } else {
        let r = others((n - 1) as nat, own);
        if n - 1 == own {
            r
        } else {
            r.push((n - 1) as usize)
        }
    }
}

/// Who receives a broadcast from member `own_index` of `n`: every other
/// member, in index order.
pub fn broadcast_targets(own_index: usize, n: usize) -> (r: Vec<usize>)
    ensures
        r@ == others(n as nat, own_index as int),
{
    let mut out: Vec<usize> = Vec::new();
    let mut i: usize = 0;
    while i < n
        invariant
            i <= n,
            out@ == others(i as nat, own_index as int),
        decreases n - i,
    {
        if i != own_index {
            out.push(i);
        }
        i = i + 1;
    }
    out
}

/// Where a unicast from member `own_index` to `target_idx` goes among `n`
/// members: an error for an index out of range, nowhere for oneself, else the
/// target.
pub fn unicast_target(own_index: usize, n: usize, target_idx: usize) -> (r: Result<Option<usize>, MpBridgeError>)
    ensures
        target_idx >= n ==> r == Err::<Option<usize>, MpBridgeError>(MpBridgeError::InvalidTarget(target_idx, n)),
        target_idx < n && target_idx == own_index ==> r == Ok::<Option<usize>, MpBridgeError>(None),
        target_idx < n && target_idx != own_index ==> r == Ok::<Option<usize>, MpBridgeError>(Some(target_idx)),
{
    if target_idx >= n {
        return Err(MpBridgeError::InvalidTarget(target_idx, n));
    }
    if target_idx == own_index {
        return Ok(None);
    }
    Ok(Some(target_idx))
}

/// The peer id a unicast to `target_idx` is sent to, from the peer ids of the
/// members in index order.
pub fn unicast_peer(peer_map: &Vec<Vec<u8>>, target_idx: usize) -> (r: Result<Vec<u8>, MpBridgeError>)
    ensures
        target_idx < peer_map@.len() ==> (r matches Ok(p) && p@ == peer_map@[target_idx as int]@),
        target_idx >= peer_map@.len() ==> r == Err::<Vec<u8>, MpBridgeError>(
            MpBridgeError::InvalidTarget(target_idx, peer_map@.len() as usize),
        ),
{
    let n = peer_map.len();
    if target_idx >= n {
        return Err(MpBridgeError::InvalidTarget(target_idx, n));
    }
    Ok(copy_bytes(&peer_map[target_idx]))
}

} // verus!
