//! Building requests: each writes a packet, queues it for the peer and notes
//! in the peer's record what was asked and when.

use vstd::prelude::*;
use crate::action::Action;
use crate::codec::{encoded_bytes, encoded_list};
use crate::env::BlockRequest;
use crate::packets::{
    encode_empty_list,
    encode_hashes,
    encode_header_by_number,
    encode_headers_by_hash,
    encode_one_hash,
    hash_items,
    header_by_number_items,
    headers_by_hash_items,
    MAX_HASHES_IN_LIST,
};
use crate::peer::{BlockSet, PeerAsking, PeerInfo};
use crate::peer_map::{lemma_position_unique, position, Entry};
use crate::primitives::{BlockNumber, H256, PacketId, PeerId, Timestamp};
use crate::primitives::{
    GET_BLOCK_BODIES_PACKET,
    GET_BLOCK_HEADERS_PACKET,
    GET_RECEIPTS_PACKET,
    GET_SNAPSHOT_DATA_PACKET,
    GET_SNAPSHOT_MANIFEST_PACKET,
};
use crate::relations::{evolves, lemma_evolves_update, Peers};
use crate::snapshot::Snapshot;

verus! {

/// Whether the registry after a request is the one before it with the one
/// record replaced, and the queue the one before it with the one packet
/// added.
pub open spec fn request_made(
    before: Seq<Entry<PeerInfo>>,
    after: Seq<Entry<PeerInfo>>,
    queue_before: Seq<Action>,
    queue_after: Seq<Action>,
    id: PeerId,
    record: PeerInfo,
    packet_id: PacketId,
) -> bool {
    &&& after == before.update(position(before, id), Entry { id, value: record })
    &&& queue_after.len() == queue_before.len() + 1
    &&& queue_before.is_prefix_of(queue_after)
    &&& queue_after.last().sends_kind(id, packet_id)
}

/// The payload of the packet queued last.
pub open spec fn last_payload(queue: Seq<Action>) -> Seq<u8> {
    match queue.last() {
        Action::Send { data, .. } => data@,
        _ => Seq::empty(),
    }
}

/// Queues a request for a peer and notes it in the peer's record.  Nothing
/// happens where the peer is not registered.
pub fn send_request(
    peers: &mut Peers,
    out: &mut Vec<Action>,
    peer_id: PeerId,
    asking: PeerAsking,
    packet_id: PacketId,
    packet: Vec<u8>,
    now: Timestamp,
)
    requires
        old(peers).wf(),
    ensures
        final(peers).wf(),
        !old(peers).has(peer_id) ==> *final(peers) == *old(peers) && *final(out) == *old(out),
        old(peers).has(peer_id) ==> request_made(
            old(peers).entries@,
            final(peers).entries@,
            old(out)@,
            final(out)@,
            peer_id,
            PeerInfo { asking, ask_time: now, ..old(peers).value_of(peer_id) },
            packet_id,
        ) && last_payload(final(out)@) == packet@,
        old(out)@.is_prefix_of(final(out)@),
        asking != PeerAsking::Nothing && crate::action::is_request_id(packet_id) ==> evolves(
            old(peers).entries@,
            final(peers).entries@,
            final(out)@,
            old(out)@.len() as int,
        ),
{
    match peers.index_of(peer_id) {
        Some(i) => {
            let peer = &mut peers.entries[i].value;
            peer.asking = asking;
            peer.ask_time = now;
            out.push(Action::Send { peer: peer_id, packet_id, data: packet });
            proof {
                let a = old(peers).entries@;
                let b = peers.entries@;
                assert(b =~= a.update(
                    i as int,
                    Entry {
                        id: peer_id,
                        value: PeerInfo { asking, ask_time: now, ..a[i as int].value },
                    },
                ));
                crate::peer_map::lemma_same_ids_distinct(a, b);
                assert(out@.last().is_request_to(peer_id) == crate::action::is_request_id(
                    packet_id,
                ));
                if asking != PeerAsking::Nothing && crate::action::is_request_id(packet_id) {
                    assert(out@[old(out)@.len() as int].is_request_to(peer_id));
                    lemma_evolves_update(a, b, i as int, out@, old(out)@.len() as int);
                }
            }
        },
        None => {},
    }
}

/// Asks a peer for the header of the block with the given number.
pub fn request_fork_header_by_number(
    peers: &mut Peers,
    out: &mut Vec<Action>,
    peer_id: PeerId,
    number: BlockNumber,
    now: Timestamp,
)
    requires
        old(peers).wf(),
    ensures
        final(peers).wf(),
        !old(peers).has(peer_id) ==> *final(peers) == *old(peers) && *final(out) == *old(out),
        old(peers).has(peer_id) ==> request_made(
            old(peers).entries@,
            final(peers).entries@,
            old(out)@,
            final(out)@,
            peer_id,
            PeerInfo {
                asking: PeerAsking::ForkHeader,
                ask_time: now,
                ..old(peers).value_of(peer_id)
            },
            GET_BLOCK_HEADERS_PACKET,
        ) && last_payload(final(out)@) == encoded_list(header_by_number_items(number)),
        old(out)@.is_prefix_of(final(out)@),
        evolves(old(peers).entries@, final(peers).entries@, final(out)@, old(out)@.len() as int),
{
    let packet = encode_header_by_number(number);
    send_request(
        peers,
        out,
        peer_id,
        PeerAsking::ForkHeader,
        GET_BLOCK_HEADERS_PACKET,
        packet,
        now,
    );
}

/// Asks a peer for the manifest of its snapshot.
pub fn request_snapshot_manifest(
    peers: &mut Peers,
    out: &mut Vec<Action>,
    peer_id: PeerId,
    now: Timestamp,
)
    requires
        old(peers).wf(),
    ensures
        final(peers).wf(),
        !old(peers).has(peer_id) ==> *final(peers) == *old(peers) && *final(out) == *old(out),
        old(peers).has(peer_id) ==> request_made(
            old(peers).entries@,
            final(peers).entries@,
            old(out)@,
            final(out)@,
            peer_id,
            PeerInfo {
                asking: PeerAsking::SnapshotManifest,
                ask_time: now,
                ..old(peers).value_of(peer_id)
            },
            GET_SNAPSHOT_MANIFEST_PACKET,
        ) && last_payload(final(out)@) == encoded_list(Seq::empty()),
        old(out)@.is_prefix_of(final(out)@),
        evolves(old(peers).entries@, final(peers).entries@, final(out)@, old(out)@.len() as int),
{
    let packet = encode_empty_list();
    send_request(
        peers,
        out,
        peer_id,
        PeerAsking::SnapshotManifest,
        GET_SNAPSHOT_MANIFEST_PACKET,
        packet,
        now,
    );
}

/// Asks a peer for the next chunk of the snapshot that is needed, where one
/// is, and notes the chunk as being fetched.
pub fn request_snapshot_data(
    peers: &mut Peers,
    snapshot: &mut Snapshot,
    out: &mut Vec<Action>,
    peer_id: PeerId,
    now: Timestamp,
) -> (chunk: Option<H256>)
    requires
        old(peers).wf(),
        old(snapshot).wf(),
    ensures
        final(peers).wf(),
        final(snapshot).wf(),
        old(snapshot).is_next_needed(chunk),
        chunk is None ==> *final(snapshot) == *old(snapshot),
        chunk is None || !old(peers).has(peer_id) ==> *final(peers) == *old(peers) && *final(out)
            == *old(out),
        chunk matches Some(hash) ==> (old(peers).has(peer_id) ==> request_made(
            old(peers).entries@,
            final(peers).entries@,
            old(out)@,
            final(out)@,
            peer_id,
            PeerInfo {
                asking: PeerAsking::SnapshotData,
                ask_time: now,
                asking_snapshot_data: Some(hash),
                ..old(peers).value_of(peer_id)
            },
            GET_SNAPSHOT_DATA_PACKET,
        ) && last_payload(final(out)@) == encoded_list(seq![encoded_bytes(hash.bytes())])),
        old(out)@.is_prefix_of(final(out)@),
        evolves(old(peers).entries@, final(peers).entries@, final(out)@, old(out)@.len() as int),
        forall|h: H256|
            final(snapshot).downloading_chunks.has(h) == (old(snapshot).downloading_chunks.has(h)
                || chunk == Some(h)),
        final(snapshot).pending_state_chunks == old(snapshot).pending_state_chunks,
        final(snapshot).pending_block_chunks == old(snapshot).pending_block_chunks,
        final(snapshot).completed_chunks == old(snapshot).completed_chunks,
        final(snapshot).snapshot_hash == old(snapshot).snapshot_hash,
        final(snapshot).bad_hashes == old(snapshot).bad_hashes,
{
    let chunk = snapshot.needed_chunk();
    if let Some(hash) = chunk {
        match peers.index_of(peer_id) {
            Some(i) => {
                peers.entries[i].value.asking_snapshot_data = Some(hash);
                proof {
                    crate::peer_map::lemma_same_ids_distinct(old(peers).entries@, peers.entries@);
                    lemma_position_unique(peers.entries@, i as int);
                }
            },
            None => {},
        }
        let ghost mid = peers.entries@;
        let packet = encode_one_hash(&hash);
        send_request(
            peers,
            out,
            peer_id,
            PeerAsking::SnapshotData,
            GET_SNAPSHOT_DATA_PACKET,
            packet,
            now,
        );
        proof {
            if old(peers).has(peer_id) {
                let a = old(peers).entries@;
                let at = position(a, peer_id);
                assert(peers.entries@ =~= a.update(
                    at,
                    Entry {
                        id: peer_id,
                        value: PeerInfo {
                            asking: PeerAsking::SnapshotData,
                            ask_time: now,
                            asking_snapshot_data: Some(hash),
                            ..a[at].value
                        },
                    },
                ));
                lemma_evolves_update(a, peers.entries@, at, out@, old(out)@.len() as int);
            }
        }
    }
    chunk
}

/// The record of a peer that was asked for headers from `start`.
pub open spec fn asked_headers(p: PeerInfo, start: H256, set: BlockSet, now: Timestamp)
    -> PeerInfo {
    PeerInfo {
        asking: PeerAsking::BlockHeaders,
        ask_time: now,
        asking_hash: Some(start),
        block_set: Some(set),
        ..p
    }
}

/// The record of a peer that was asked for bodies or receipts of `hashes`.
pub open spec fn asked_blocks(
    p: PeerInfo,
    asking: PeerAsking,
    hashes: Vec<H256>,
    set: BlockSet,
    now: Timestamp,
) -> PeerInfo {
    PeerInfo { asking, ask_time: now, asking_blocks: hashes, block_set: Some(set), ..p }
}

/// Asks a peer for headers from the block with the given hash on.
pub fn request_headers_by_hash(
    peers: &mut Peers,
    out: &mut Vec<Action>,
    peer_id: PeerId,
    start: &H256,
    count: u64,
    skip: u64,
    reverse: bool,
    set: BlockSet,
    now: Timestamp,
)
    requires
        old(peers).wf(),
        old(peers).has(peer_id),
    ensures
        final(peers).wf(),
        request_made(
            old(peers).entries@,
            final(peers).entries@,
            old(out)@,
            final(out)@,
            peer_id,
            asked_headers(old(peers).value_of(peer_id), *start, set, now),
            GET_BLOCK_HEADERS_PACKET,
        ),
        last_payload(final(out)@) == encoded_list(
            headers_by_hash_items(*start, count, skip, reverse),
        ),
        evolves(old(peers).entries@, final(peers).entries@, final(out)@, old(out)@.len() as int),
{
    let packet = encode_headers_by_hash(start, count, skip, reverse);
    send_request(
        peers,
        out,
        peer_id,
        PeerAsking::BlockHeaders,
        GET_BLOCK_HEADERS_PACKET,
        packet,
        now,
    );
    let ghost mid = peers.entries@;
    match peers.index_of(peer_id) {
        Some(i) => {
            let peer = &mut peers.entries[i].value;
            peer.asking_hash = Some(*start);
            peer.block_set = Some(set);
        },
        None => {},
    }
    proof {
        let a = old(peers).entries@;
        let at = position(a, peer_id);
        crate::peer_map::lemma_same_ids_distinct(a, mid);
        lemma_position_unique(mid, at);
        assert(peers.entries@ =~= a.update(
            at,
            Entry { id: peer_id, value: asked_headers(a[at].value, *start, set, now) },
        ));
        crate::peer_map::lemma_same_ids_distinct(a, peers.entries@);
        assert(out@[old(out)@.len() as int].is_request_to(peer_id));
        lemma_evolves_update(a, peers.entries@, at, out@, old(out)@.len() as int);
    }
}

/// Asks a peer for the bodies or the receipts of the given blocks.
fn request_block_parts(
    peers: &mut Peers,
    out: &mut Vec<Action>,
    peer_id: PeerId,
    hashes: Vec<H256>,
    asking: PeerAsking,
    packet_id: PacketId,
    set: BlockSet,
    now: Timestamp,
)
    requires
        old(peers).wf(),
        old(peers).has(peer_id),
        asking != PeerAsking::Nothing,
        crate::action::is_request_id(packet_id),
    ensures
        final(peers).wf(),
        request_made(
            old(peers).entries@,
            final(peers).entries@,
            old(out)@,
            final(out)@,
            peer_id,
            asked_blocks(old(peers).value_of(peer_id), asking, hashes, set, now),
            packet_id,
        ),
        hashes@.len() <= MAX_HASHES_IN_LIST ==> last_payload(final(out)@) == encoded_list(
            hash_items(hashes@),
        ),
        evolves(old(peers).entries@, final(peers).entries@, final(out)@, old(out)@.len() as int),
{
    let packet = encode_hashes(&hashes);
    send_request(peers, out, peer_id, asking, packet_id, packet, now);
    let ghost mid = peers.entries@;
    match peers.index_of(peer_id) {
        Some(i) => {
            let peer = &mut peers.entries[i].value;
            peer.asking_blocks = hashes;
            peer.block_set = Some(set);
        },
        None => {},
    }
    proof {
        let a = old(peers).entries@;
        let at = position(a, peer_id);
        crate::peer_map::lemma_same_ids_distinct(a, mid);
        lemma_position_unique(mid, at);
        assert(peers.entries@ =~= a.update(
            at,
            Entry { id: peer_id, value: asked_blocks(a[at].value, asking, hashes, set, now) },
        ));
        crate::peer_map::lemma_same_ids_distinct(a, peers.entries@);
        assert(out@[old(out)@.len() as int].is_request_to(peer_id));
        lemma_evolves_update(a, peers.entries@, at, out@, old(out)@.len() as int);
    }
}

/// Asks a peer for the bodies of the given blocks.
pub fn request_bodies(
    peers: &mut Peers,
    out: &mut Vec<Action>,
    peer_id: PeerId,
    hashes: Vec<H256>,
    set: BlockSet,
    now: Timestamp,
)
    requires
        old(peers).wf(),
        old(peers).has(peer_id),
    ensures
        final(peers).wf(),
        request_made(
            old(peers).entries@,
            final(peers).entries@,
            old(out)@,
            final(out)@,
            peer_id,
            asked_blocks(old(peers).value_of(peer_id), PeerAsking::BlockBodies, hashes, set, now),
            GET_BLOCK_BODIES_PACKET,
        ),
        hashes@.len() <= MAX_HASHES_IN_LIST ==> last_payload(final(out)@) == encoded_list(
            hash_items(hashes@),
        ),
        evolves(old(peers).entries@, final(peers).entries@, final(out)@, old(out)@.len() as int),
{
    request_block_parts(
        peers,
        out,
        peer_id,
        hashes,
        PeerAsking::BlockBodies,
        GET_BLOCK_BODIES_PACKET,
        set,
        now,
    );
}

/// Asks a peer for the receipts of the given blocks.
pub fn request_receipts(
    peers: &mut Peers,
    out: &mut Vec<Action>,
    peer_id: PeerId,
    hashes: Vec<H256>,
    set: BlockSet,
    now: Timestamp,
)
    requires
        old(peers).wf(),
        old(peers).has(peer_id),
    ensures
        final(peers).wf(),
        request_made(
            old(peers).entries@,
            final(peers).entries@,
            old(out)@,
            final(out)@,
            peer_id,
            asked_blocks(old(peers).value_of(peer_id), PeerAsking::BlockReceipts, hashes, set, now),
            GET_RECEIPTS_PACKET,
        ),
        hashes@.len() <= MAX_HASHES_IN_LIST ==> last_payload(final(out)@) == encoded_list(
            hash_items(hashes@),
        ),
        evolves(old(peers).entries@, final(peers).entries@, final(out)@, old(out)@.len() as int),
{
    request_block_parts(
        peers,
        out,
        peer_id,
        hashes,
        PeerAsking::BlockReceipts,
        GET_RECEIPTS_PACKET,
        set,
        now,
    );
}

/// The record of a peer that was sent the given request.
pub open spec fn asked_for(p: PeerInfo, request: BlockRequest, set: BlockSet, now: Timestamp)
    -> PeerInfo {
    match request {
        BlockRequest::Headers { start, .. } => asked_headers(p, start, set, now),
        BlockRequest::Bodies { hashes } => asked_blocks(
            p,
            PeerAsking::BlockBodies,
            hashes,
            set,
            now,
        ),
        BlockRequest::Receipts { hashes } => asked_blocks(
            p,
            PeerAsking::BlockReceipts,
            hashes,
            set,
            now,
        ),
    }
}

/// The packet that carries the given request.
pub open spec fn packet_of(request: BlockRequest) -> PacketId {
    match request {
        BlockRequest::Headers { .. } => GET_BLOCK_HEADERS_PACKET,
        BlockRequest::Bodies { .. } => GET_BLOCK_BODIES_PACKET,
        BlockRequest::Receipts { .. } => GET_RECEIPTS_PACKET,
    }
}

/// The payload of the packet that carries the given request, where the
/// encoder writes it in full.
pub open spec fn payload_of(request: BlockRequest) -> Option<Seq<u8>> {
    match request {
        BlockRequest::Headers { start, count, skip } => Some(
            encoded_list(headers_by_hash_items(start, count, skip, false)),
        ),
        BlockRequest::Bodies { hashes } => if hashes@.len() <= MAX_HASHES_IN_LIST {
            Some(encoded_list(hash_items(hashes@)))
        } else {
            None
        },
        BlockRequest::Receipts { hashes } => if hashes@.len() <= MAX_HASHES_IN_LIST {
            Some(encoded_list(hash_items(hashes@)))
        } else {
            None
        },
    }
}

/// Sends a peer the request that a downloader made.
pub fn request_blocks(
    peers: &mut Peers,
    out: &mut Vec<Action>,
    peer_id: PeerId,
    request: BlockRequest,
    set: BlockSet,
    now: Timestamp,
)
    requires
        old(peers).wf(),
        old(peers).has(peer_id),
    ensures
        final(peers).wf(),
        request_made(
            old(peers).entries@,
            final(peers).entries@,
            old(out)@,
            final(out)@,
            peer_id,
            asked_for(old(peers).value_of(peer_id), request, set, now),
            packet_of(request),
        ),
        payload_of(request) matches Some(payload) ==> last_payload(final(out)@) == payload,
        evolves(old(peers).entries@, final(peers).entries@, final(out)@, old(out)@.len() as int),
        crate::laws::unique_requests(old(peers).entries@) && crate::laws::is_fresh(
            old(peers).entries@,
            position(old(peers).entries@, peer_id),
            asked_for(old(peers).value_of(peer_id), request, set, now),
        ) ==> crate::laws::unique_requests(final(peers).entries@),
{
    proof {
        let s = old(peers).entries@;
        let at = position(s, peer_id);
        if crate::laws::unique_requests(s) && crate::laws::is_fresh(
            s,
            at,
            asked_for(s[at].value, request, set, now),
        ) {
            crate::laws::lemma_fresh_request_keeps_requests_unique(s, at, request, set, now);
        }
    }
    match request {
        BlockRequest::Headers { start, count, skip } => {
            request_headers_by_hash(peers, out, peer_id, &start, count, skip, false, set, now);
        },
        BlockRequest::Bodies { hashes } => {
            request_bodies(peers, out, peer_id, hashes, set, now);
        },
        BlockRequest::Receipts { hashes } => {
            request_receipts(peers, out, peer_id, hashes, set, now);
        },
    }
}

} // verus!
