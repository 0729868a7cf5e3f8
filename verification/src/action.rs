//! What the synchroniser wants done on the network.  It queues its wishes in
//! the order in which it has them; whoever drives it carries them out.

use vstd::prelude::*;
use crate::primitives::{PacketId, PeerId};
use crate::primitives::{
    GET_BLOCK_BODIES_PACKET,
    GET_BLOCK_HEADERS_PACKET,
    GET_RECEIPTS_PACKET,
    GET_SNAPSHOT_DATA_PACKET,
    GET_SNAPSHOT_MANIFEST_PACKET,
};

verus! {

/// One thing to do on the network.
#[derive(Debug)]
pub enum Action {
    /// Send a packet to a peer.  A peer to which it cannot be sent is to be
    /// disconnected.
    Send { peer: PeerId, packet_id: PacketId, data: Vec<u8> },
    /// Disconnect a peer and do not talk to it again.
    Disable { peer: PeerId },
    /// Disconnect a peer.
    Disconnect { peer: PeerId },
}

/// Whether a packet asks a peer for data.
pub open spec fn is_request_id(packet_id: PacketId) -> bool {
    packet_id == GET_BLOCK_HEADERS_PACKET || packet_id == GET_BLOCK_BODIES_PACKET || packet_id
        == GET_RECEIPTS_PACKET || packet_id == GET_SNAPSHOT_MANIFEST_PACKET || packet_id
        == GET_SNAPSHOT_DATA_PACKET
}

impl Action {
    /// Whether the action sends the given packet to the given peer.
    pub open spec fn sends(self, to: PeerId, id: PacketId, payload: Seq<u8>) -> bool {
        self matches Action::Send { peer, packet_id, data } && peer == to && packet_id == id
            && data@ == payload
    }

    /// Whether the action sends a packet of the given kind to the given peer.
    pub open spec fn sends_kind(self, to: PeerId, id: PacketId) -> bool {
        self matches Action::Send { peer, packet_id, .. } && peer == to && packet_id == id
    }

    /// Whether the action sends a packet of one of the two given kinds.
    pub open spec fn sends_either(self, a: PacketId, b: PacketId) -> bool {
        match self {
            Action::Send { packet_id, .. } => packet_id == a || packet_id == b,
            _ => false,
        }
    }

    /// Whether the action asks the given peer for data.
    pub open spec fn is_request_to(self, to: PeerId) -> bool {
        self matches Action::Send { peer, packet_id, .. } && peer == to && is_request_id(packet_id)
    }

    /// Whether the action asks some peer for data.
    pub open spec fn is_request(self) -> bool {
        self matches Action::Send { packet_id, .. } && is_request_id(packet_id)
    }
}

/// Whether the action sends a packet of the given kind to one of the given
/// peers.
pub open spec fn sent_to_one_of(a: Action, peers: Seq<PeerId>, id: PacketId) -> bool {
    exists|j: int| 0 <= j < peers.len() && a.sends_kind(#[trigger] peers[j], id)
}

/// Whether every action from the given place on sends a packet of the given
/// kind to one of the given peers.
pub open spec fn all_sent_to(acts: Seq<Action>, from: int, peers: Seq<PeerId>, id: PacketId)
    -> bool {
    forall|k: int| 0 <= k && from <= k < acts.len()
        ==> sent_to_one_of(#[trigger] acts[k], peers, id)
}

/// Whether a request to the given peer stands among the actions from the
/// given place on.
pub open spec fn requested(acts: Seq<Action>, from: int, id: PeerId) -> bool {
    exists|k: int| 0 <= k && from <= k < acts.len() && (#[trigger] acts[k]).is_request_to(id)
}

/// Whether no request stands among the actions from `from` up to `to`.
pub open spec fn no_requests(acts: Seq<Action>, from: int, to: int) -> bool {
    forall|k: int| 0 <= k && from <= k < to && k < acts.len() ==> !(#[trigger] acts[k]).is_request()
}

} // verus!
