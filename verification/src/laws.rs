//! What holds of the synchroniser across its functions.

use vstd::prelude::*;
use crate::action::{no_requests, Action};
use crate::chain_sync::{lemma_prefix_trans, progresses, ChainSync};
use crate::codec::PacketDecodeError;
use crate::env::{
    BlockDownloader,
    BlockRequest,
    ChainInfo,
    DownloadAction,
    DownloaderImportError,
    ImportResult,
    PendingTransaction,
};
use crate::peer::{BlockSet, PeerAsking, PeerInfo};
use crate::peer_map::Entry;
use crate::primitives::{H256, PeerId, Timestamp, U256};
use crate::primitives::{
    MAX_PEERS_PROPAGATION,
    MIN_PEERS_PROPAGATION,
    NEW_BLOCK_HASHES_PACKET,
    NEW_BLOCK_PACKET,
    PAR_PROTOCOL_VERSION_2,
};
use crate::propagation::{
    announcements_sent,
    blocks_sent,
    heads_at,
    lemma_spread_asks_nothing,
    sent_to_each,
    with_head_at,
};
use crate::status::SyncState;
use crate::transactions::{among, lemma_picked, picked};
use crate::relations::renewed;
use crate::propagator::{is_width, nearest_root};
use crate::requester::asked_for;
use crate::responses::Answer;
use crate::tx_propagation::{all_paid, fits_one_packet, fully_announced, is_class, none_told};

verus! {

/// Whether a peer carries a request of the given kind for the given hash on
/// behalf of the given downloader.
pub open spec fn carries(p: PeerInfo, set: BlockSet, asking: PeerAsking, hash: H256) -> bool {
    &&& p.block_set == Some(set)
    &&& p.asking == asking
    &&& match asking {
        PeerAsking::BlockHeaders => p.asking_hash == Some(hash),
        PeerAsking::BlockBodies => p.asking_blocks@.contains(hash),
        PeerAsking::BlockReceipts => p.asking_blocks@.contains(hash),
        _ => false,
    }
}

/// Whether no two peers carry a request of the same kind for the same hash
/// on behalf of the same downloader.
pub open spec fn unique_requests(s: Seq<Entry<PeerInfo>>) -> bool {
    forall|i: int, j: int, set: BlockSet, asking: PeerAsking, hash: H256|
        0 <= i < s.len() && 0 <= j < s.len() && i != j && #[trigger] carries(
            s[i].value,
            set,
            asking,
            hash,
        ) ==> !#[trigger] carries(s[j].value, set, asking, hash)
}

/// Whether a record carries no more than another.
pub open spec fn carries_no_more(o: PeerInfo, n: PeerInfo) -> bool {
    forall|set: BlockSet, asking: PeerAsking, hash: H256|
        #[trigger] carries(n, set, asking, hash) ==> carries(o, set, asking, hash)
}

/// Whether no peer other than the one at `at` carries what the record `p`
/// carries.
pub open spec fn is_fresh(s: Seq<Entry<PeerInfo>>, at: int, p: PeerInfo) -> bool {
    forall|i: int, set: BlockSet, asking: PeerAsking, hash: H256|
        0 <= i < s.len() && i != at && #[trigger] carries(s[i].value, set, asking, hash)
            ==> !carries(p, set, asking, hash)
}

/// No duplicate requests: where no two peers carry the same request, and
/// one peer is handed a request that no other carries, still no two peers
/// carry the same.  That a downloader hands out only what no peer carries
/// is its part; handing it on keeps requests apart.
pub proof fn lemma_fresh_request_keeps_requests_unique(
    s: Seq<Entry<PeerInfo>>,
    at: int,
    request: BlockRequest,
    set: BlockSet,
    now: Timestamp,
)
    requires
        0 <= at < s.len(),
        unique_requests(s),
        is_fresh(s, at, asked_for(s[at].value, request, set, now)),
    ensures
        unique_requests(
            s.update(
                at,
                Entry { id: s[at].id, value: asked_for(s[at].value, request, set, now) },
            ),
        ),
{
    let p = asked_for(s[at].value, request, set, now);
    let t = s.update(at, Entry { id: s[at].id, value: p });
    assert forall|i: int, j: int, set: BlockSet, asking: PeerAsking, hash: H256|
        0 <= i < t.len() && 0 <= j < t.len() && i != j && #[trigger] carries(
            t[i].value,
            set,
            asking,
            hash,
        ) implies !#[trigger] carries(t[j].value, set, asking, hash) by {
        if i == at {
            if carries(t[j].value, set, asking, hash) {
                assert(carries(s[j].value, set, asking, hash));
            }
        } else if j == at {
            assert(carries(s[i].value, set, asking, hash));
        } else {
            assert(carries(s[i].value, set, asking, hash));
        }
    }
}

/// No duplicate requests: where no two peers carry the same request, they
/// do not after requests were answered, abandoned or timed out either, which
/// leaves every peer with no more than it carried.
pub proof fn lemma_release_keeps_requests_unique(o: Seq<Entry<PeerInfo>>, n: Seq<Entry<PeerInfo>>)
    requires
        unique_requests(o),
        n.len() == o.len(),
        forall|i: int| 0 <= i < o.len() ==> carries_no_more((#[trigger] o[i]).value, n[i].value),
    ensures
        unique_requests(n),
{
    assert forall|i: int, j: int, set: BlockSet, asking: PeerAsking, hash: H256|
        0 <= i < n.len() && 0 <= j < n.len() && i != j && #[trigger] carries(
            n[i].value,
            set,
            asking,
            hash,
        ) implies !#[trigger] carries(n[j].value, set, asking, hash) by {
        assert(carries_no_more(o[i].value, n[i].value));
        assert(carries_no_more(o[j].value, n[j].value));
        assert(carries(o[i].value, set, asking, hash));
    }
}

/// No duplicate requests: a peer that has left takes its requests with it.
pub proof fn lemma_leaving_keeps_requests_unique(s: Seq<Entry<PeerInfo>>, at: int)
    requires
        0 <= at < s.len(),
        unique_requests(s),
    ensures
        unique_requests(s.remove(at)),
{
    let n = s.remove(at);
    assert forall|i: int, j: int, set: BlockSet, asking: PeerAsking, hash: H256|
        0 <= i < n.len() && 0 <= j < n.len() && i != j && #[trigger] carries(
            n[i].value,
            set,
            asking,
            hash,
        ) implies !#[trigger] carries(n[j].value, set, asking, hash) by {
        let i0 = if i < at { i } else { i + 1 };
        let j0 = if j < at { j } else { j + 1 };
        assert(n[i] == s[i0]);
        assert(n[j] == s[j0]);
        assert(carries(s[i0].value, set, asking, hash));
    }
}

/// A record that is as it was, or whose request was answered or abandoned,
/// carries no more than before.
pub proof fn lemma_answered_carries_no_more(o: PeerInfo, n: PeerInfo)
    requires
        n == o || n.asking == PeerAsking::Nothing || (n.asking == o.asking && n.block_set
            == o.block_set && n.asking_hash is None && n.asking_blocks@.len() == 0),
    ensures
        carries_no_more(o, n),
{
}

/// Expiry discipline: the answer of a peer whose request has expired is
/// never looked into, whatever it was asked for, and while the request is
/// expired the peer cannot be sent requests.  With the answer the mark is
/// taken off, so that the peer may be asked anew in the same call.
pub proof fn lemma_expired_answers_are_dropped(p: PeerInfo, asking: PeerAsking)
    requires
        p.expired,
    ensures
        !Answer::of(p, asking).spec_headers_expected(),
        !Answer::of(p, asking).spec_parts_expected(),
        !p.spec_can_sync(),
        !p.spec_is_allowed(),
{
}

/// Expiry discipline: headers from a peer whose request has expired are
/// handed to no downloader.  The answer is noted, and work is handed out.
pub proof fn lemma_expired_headers_are_not_imported<D: BlockDownloader>(
    o: ChainSync<D>,
    first: ChainSync<D>,
    mid: ChainSync<D>,
    n: ChainSync<D>,
    peer_id: PeerId,
    data: Seq<u8>,
    verdict: Result<DownloadAction, DownloaderImportError>,
    now: Timestamp,
)
    requires
        o.peers.has(peer_id),
        o.peer(peer_id).expired,
        o.headers_taken(first, mid, n, peer_id, data, verdict, now),
    ensures
        !o.imports_headers(peer_id, data),
        mid == first,
        o.answer_taken(first, peer_id),
        progresses(first, n),
{
}

/// Expiry discipline: bodies and receipts from a peer whose request has
/// expired are handed to no downloader, and the peer is not made to sit
/// out the round for them.
pub proof fn lemma_expired_parts_are_not_imported<D: BlockDownloader>(
    o: ChainSync<D>,
    first: ChainSync<D>,
    mid: ChainSync<D>,
    n: ChainSync<D>,
    peer_id: PeerId,
    asking: PeerAsking,
    data: Seq<u8>,
    verdict: Result<DownloadAction, DownloaderImportError>,
    now: Timestamp,
)
    requires
        o.peers.has(peer_id),
        o.peer(peer_id).expired,
        o.parts_taken(first, mid, n, peer_id, asking, data, verdict, now),
    ensures
        !o.imports_parts(peer_id, asking, data),
        mid == first,
        o.answer_taken(first, peer_id),
        progresses(first, n),
{
}

/// Expiry discipline: a manifest or a chunk of a snapshot from a peer whose
/// request has expired changes nothing.
pub proof fn lemma_expired_snapshot_answers_are_dropped<D: BlockDownloader>(
    o: ChainSync<D>,
    n: ChainSync<D>,
    peer_id: PeerId,
    data: Seq<u8>,
    now: Timestamp,
    r: Result<(), PacketDecodeError>,
)
    requires
        o.peers.has(peer_id),
        o.peer(peer_id).expired,
        o.handles_manifest(n, peer_id, data, now, r) || o.handles_chunk(n, peer_id, data, now, r),
    ensures
        n == o,
        r is Ok,
{
}

/// Transactions are announced once: where the peers are so few that each
/// is picked, none of them was told of anything yet, every transaction is
/// paid for and one packet holds them all, a second announcement of the
/// same transactions right after the first sends no packet and changes no
/// record.
pub proof fn lemma_second_announcement_sends_nothing<D: BlockDownloader>(
    o: ChainSync<D>,
    once: ChainSync<D>,
    twice: ChainSync<D>,
    txs: Seq<PendingTransaction>,
    first: usize,
    second: usize,
)
    requires
        txs.len() > 0,
        o.peers.entries@.len() < MIN_PEERS_PROPAGATION,
        none_told(o.peers.entries@),
        all_paid(txs),
        fits_one_packet(txs),
        o.announces_ready(once, txs, first),
        once.announces_ready(twice, txs, second),
    ensures
        second == 0,
        twice.outbox@ == once.outbox@,
        twice.peers.entries@ == once.peers.entries@,
{
    assert(twice.outbox@ =~= once.outbox@);
}

/// Transactions are announced once: when every peer was told of every
/// transaction that waits, an announcement sends no packet and changes no
/// record.
pub proof fn lemma_announced_transactions_are_not_sent_again<D: BlockDownloader>(
    o: ChainSync<D>,
    n: ChainSync<D>,
    txs: Seq<PendingTransaction>,
    sent: usize,
)
    requires
        fully_announced(o.peers.entries@, txs),
        o.announces_ready(n, txs, sent),
    ensures
        sent == 0,
        n.outbox@ == o.outbox@,
        n.peers.entries@ == o.peers.entries@,
{
    assert(n.outbox@ =~= o.outbox@);
}

/// Bad blocks start the sync over before anything is asked: of what is
/// queued when blocks turned out bad, nothing up to the start is a request,
/// and every request that is in flight afterwards was queued after it, but
/// for requests for old blocks and those for the header of the fork block.
pub proof fn lemma_bad_blocks_restart_before_requests<D: BlockDownloader>(
    o: ChainSync<D>,
    told: ChainSync<D>,
    all_told: ChainSync<D>,
    restarted: ChainSync<D>,
    n: ChainSync<D>,
    unverified: usize,
    verified: usize,
    info: ChainInfo,
    invalid: nat,
    enacted: nat,
    sealed: nat,
    proposed: Seq<Seq<u8>>,
    now: Timestamp,
)
    requires
        o.wf(),
        invalid > 0,
        o.news_taken(
            told,
            all_told,
            restarted,
            n,
            unverified,
            verified,
            info,
            invalid,
            enacted,
            sealed,
            proposed,
            now,
        ),
    ensures
        o.outbox@.is_prefix_of(all_told.outbox@),
        all_told.outbox@.is_prefix_of(n.outbox@),
        no_requests(n.outbox@, o.outbox@.len() as int, all_told.outbox@.len() as int),
        all_told.restarts(restarted, now),
        renewed(
            all_told.peers.entries@,
            restarted.peers.entries@,
            restarted.outbox@,
            all_told.outbox@.len() as int,
        ),
        n.outbox == restarted.outbox,
{
    if !o.syncing(unverified, verified) || sealed > 0 || proposed.len() > 0 {
        lemma_spread_asks_nothing(o, told, NEW_BLOCK_PACKET, NEW_BLOCK_HASHES_PACKET);
        let speakers = crate::propagator::speaking(told.peers.entries@, PAR_PROTOCOL_VERSION_2);
        let difficulties = choose|difficulties: Seq<U256>| #[trigger]
            blocks_sent(told.outbox@, all_told.outbox@, speakers, proposed, difficulties);
        lemma_blocks_sent_ask_nothing(
            told.outbox@,
            all_told.outbox@,
            speakers,
            proposed,
            difficulties,
        );
        lemma_prefix_trans(o.outbox@, told.outbox@, all_told.outbox@);
    }
    lemma_prefix_trans(o.outbox@, all_told.outbox@, restarted.outbox@);
    let k = all_told.outbox@.len() as int;
    assert forall|j: int| 0 <= j && o.outbox@.len() <= j < k && j < n.outbox@.len() implies !(
    #[trigger] n.outbox@[j]).is_request() by {
        assert(all_told.outbox@ =~= n.outbox@.subrange(0, k));
        assert(n.outbox@.subrange(0, k)[j] == n.outbox@[j]);
        if j < told.outbox@.len() {
            assert(told.outbox@ =~= all_told.outbox@.subrange(0, told.outbox@.len() as int));
            assert(all_told.outbox@.subrange(0, told.outbox@.len() as int)[j]
                == all_told.outbox@[j]);
            assert(!told.outbox@[j].is_request());
        } else {
            assert(!all_told.outbox@[j].is_request());
        }
    }
}

/// The announcements of blocks are no requests, and they stand behind what
/// was queued before.
pub proof fn lemma_blocks_sent_ask_nothing(
    o: Seq<Action>,
    n: Seq<Action>,
    peers: Seq<PeerId>,
    blocks: Seq<Seq<u8>>,
    difficulties: Seq<U256>,
)
    requires
        blocks_sent(o, n, peers, blocks, difficulties),
    ensures
        o.is_prefix_of(n),
        forall|j: int| 0 <= j && o.len() <= j < n.len() ==> !(#[trigger] n[j]).is_request(),
    decreases blocks.len(),
{
    if blocks.len() > 0 {
        let (mid, data) = choose|mid: Seq<Action>, data: Seq<u8>|
            {
                &&& #[trigger] sent_to_each(mid, n, peers, NEW_BLOCK_PACKET, data)
                &&& blocks_sent(o, mid, peers, blocks.drop_last(), difficulties.drop_last())
                &&& crate::propagator::announces_block(data, blocks.last(), difficulties.last())
            };
        lemma_blocks_sent_ask_nothing(o, mid, peers, blocks.drop_last(), difficulties.drop_last());
        lemma_prefix_trans(o, mid, n);
        assert forall|j: int| 0 <= j && o.len() <= j < n.len() implies !(
        #[trigger] n[j]).is_request() by {
            if j < mid.len() {
                assert(mid =~= n.subrange(0, mid.len() as int));
                assert(n.subrange(0, mid.len() as int)[j] == n[j]);
                assert(!mid[j].is_request());
            } else {
                let k = j - mid.len();
                assert(n[mid.len() + k].sends(peers[k], NEW_BLOCK_PACKET, data));
            }
        }
    }
}

/// Transactions of one class in a packet of their own: what is picked for
/// a packet from the transactions of one class is of that class.  Every
/// packet of transactions is made so: see `classes_told`.
pub proof fn lemma_a_packet_holds_one_class(
    part: Seq<PendingTransaction>,
    txs: Seq<PendingTransaction>,
    service: bool,
    told: Seq<H256>,
)
    requires
        is_class(part, txs, service),
    ensures
        forall|k: int|
            0 <= k < picked(part, told).hashes.len() ==> exists|i: int|
                0 <= i < part.len() && (#[trigger] part[i]).hash == (#[trigger] picked(
                    part,
                    told,
                ).hashes[k]) && part[i].service == service,
{
    lemma_picked(part, told);
    let p = picked(part, told);
    assert forall|k: int| 0 <= k < p.hashes.len() implies exists|i: int|
        0 <= i < part.len() && (#[trigger] part[i]).hash == (#[trigger] p.hashes[k])
            && part[i].service == service by {
        assert(among(part, p.hashes[k]));
        let i = choose|i: int| 0 <= i < part.len() && (#[trigger] part[i]).hash == p.hashes[k];
        assert(part[i].service == service);
    }
}

/// A block announced whose parent is unknown: a synchroniser that is in
/// step fetches announced blocks from now on, and work is to be sought for
/// the peer at any rate; in any other state nothing changes.  See
/// `follow_import`.
pub proof fn lemma_unknown_parent_is_fetched_when_in_step<D: BlockDownloader>(
    o: ChainSync<D>,
    n: ChainSync<D>,
    peer_id: PeerId,
)
    requires
        o.import_answered(n, peer_id, ImportResult::UnknownParent),
    ensures
        o.state == SyncState::Idle ==> n == (ChainSync { state: SyncState::NewBlocks, ..o }),
        o.state != SyncState::Idle ==> n == o,
{
}

/// A sealed block for one peer: where the chain client hands the block out,
/// exactly one packet is queued, the announcement of the block for that
/// peer, and the head of the peer is the best block.
pub proof fn lemma_one_block_for_one_peer<D: BlockDownloader>(
    o: ChainSync<D>,
    n: ChainSync<D>,
    peer_id: PeerId,
    best: H256,
    data: Seq<u8>,
)
    requires
        o.blocks_spread(n, seq![peer_id], best, seq![Some(data)]),
    ensures
        n.outbox@.len() == o.outbox@.len() + 1,
        o.outbox@.is_prefix_of(n.outbox@),
        n.outbox@.last().sends(peer_id, NEW_BLOCK_PACKET, data),
        n.peers.entries@ == with_head_at(o.peers.entries@, peer_id, best),
{
    let peers = seq![peer_id];
    let told = seq![Some(data)];
    assert(told.last() == Some(data));
    assert(told.drop_last() =~= Seq::<Option<Seq<u8>>>::empty());
    let mid = choose|mid: Seq<Action>| #[trigger]
        sent_to_each(mid, n.outbox@, peers, NEW_BLOCK_PACKET, data) && announcements_sent(
            o.outbox@,
            mid,
            peers,
            told.drop_last(),
        );
    assert(mid == o.outbox@);
    assert(n.outbox@[mid.len() + 0int].sends(peers[0], NEW_BLOCK_PACKET, data));
    assert(peers.drop_last() =~= Seq::<PeerId>::empty());
    assert(heads_at(o.peers.entries@, peers, best) == with_head_at(
        heads_at(o.peers.entries@, peers.drop_last(), best),
        peers.last(),
        best,
    ));
}

/// Width of propagation: the width is the whole number nearest to the
/// square root of the number of peers where that lies between the least and
/// the most, else the least or the most.
pub proof fn lemma_width_is_the_bounded_root(n: nat, w: nat, root: nat)
    requires
        is_width(n, w),
        nearest_root(n, root),
    ensures
        w == if root < MIN_PEERS_PROPAGATION {
            MIN_PEERS_PROPAGATION as nat
        } else if root > MAX_PEERS_PROPAGATION {
            MAX_PEERS_PROPAGATION as nat
        } else {
            root
        },
{
    let x: int = 2 * (root as int);
    if n <= 20 {
        if root > 4 {
            assert((x - 1) * (x - 1) >= 81) by (nonlinear_arith)
                requires
                    x >= 10,
            ;
        }
    } else if n > 16256 {
        if root < 128 {
            assert((x + 1) * (x + 1) <= 65025) by (nonlinear_arith)
                requires
                    0 <= x <= 254,
            ;
        }
    } else {
        let y: int = 2 * (w as int);
        if root < w {
            assert((x + 1) * (x + 1) <= (y - 1) * (y - 1)) by (nonlinear_arith)
                requires
                    0 <= x,
                    x + 2 <= y,
            ;
        }
        if w < root {
            assert((y + 1) * (y + 1) <= (x - 1) * (x - 1)) by (nonlinear_arith)
                requires
                    0 <= y,
                    y + 2 <= x,
            ;
        }
    }
}

} // verus!
