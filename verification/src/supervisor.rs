//! The supervisor: it decides what each peer is asked for and when a round
//! of syncing starts, pauses and ends.

use vstd::prelude::*;
use crate::chain_sync::{lemma_progress_refl, lemma_progress_trans, progresses, ChainSync};
use crate::env::{
    BlockDownloader,
    BlockRequest,
    BlockStatus,
    DownloaderImportError,
    RestorationStatus,
    SyncIo,
};
use crate::order::sync_order;
use crate::peer::{BlockSet, PeerAsking, PeerInfo};
use crate::peer_map::{has_id, position, Entry};
use crate::primitives::{H256, PeerId, Timestamp, MAX_SNAPSHOT_CHUNKS_DOWNLOAD_AHEAD, U256};
use crate::snapshot::Snapshot;
use crate::relations::{evolves, lemma_evolves_trans, lemma_evolves_wf, renewed, Peers};
use crate::requester::{request_blocks, request_snapshot_data, request_snapshot_manifest};
use crate::status::SyncState;
use crate::warp::{
    best_snapshot,
    snapshot_choice,
    wait_is_over,
    SnapshotChoice,
    SnapshotQuery,
};

verus! {

/// One while the synchroniser waits for peers, zero in any other state.
pub open spec fn waiting_rank(state: SyncState) -> nat {
    if state == SyncState::WaitingPeers {
        1
    } else {
        0
    }
}

/// Whether a state belongs to the fetching or restoring of a snapshot.
pub open spec fn is_snapshot_state(state: SyncState) -> bool {
    state == SyncState::SnapshotManifest || state == SyncState::SnapshotData || state
        == SyncState::SnapshotWaiting
}

/// Whether the fetching of a snapshot was started between two states.
pub open spec fn enters_snapshot(o: SyncState, n: SyncState) -> bool {
    is_snapshot_state(n) && !is_snapshot_state(o)
}

/// Whether more chunks have arrived and wait to be restored than the
/// snapshot service is to be run ahead of.
pub open spec fn spec_backlog_full(done: usize, state_done: u32, block_done: u32) -> bool {
    done - (state_done + block_done) > MAX_SNAPSHOT_CHUNKS_DOWNLOAD_AHEAD
}

pub fn backlog_full(done: usize, state_done: u32, block_done: u32) -> (r: bool)
    ensures
        r == spec_backlog_full(done, state_done, block_done),
{
    let restored: u128 = state_done as u128 + block_done as u128;
    done as u128 > restored + MAX_SNAPSHOT_CHUNKS_DOWNLOAD_AHEAD as u128
}

/// Whether a peer is asked for new blocks: it has a block that we lack, and
/// it is ahead of us, or the caller insists, or announced blocks are being
/// fetched.
pub open spec fn spec_wants_new_blocks(
    have_latest: bool,
    higher_difficulty: bool,
    force: bool,
    state: SyncState,
) -> bool {
    !have_latest && (higher_difficulty || force || state == SyncState::NewBlocks)
}

pub fn wants_new_blocks(have_latest: bool, higher_difficulty: bool, force: bool, state: SyncState)
    -> (r: bool)
    ensures
        r == spec_wants_new_blocks(have_latest, higher_difficulty, force, state),
{
    !have_latest && (higher_difficulty || force || state == SyncState::NewBlocks)
}

/// The number of peers that carry a request.
pub open spec fn busy_count(s: Seq<Entry<PeerInfo>>) -> nat
    decreases s.len(),
{
    if s.len() == 0 {
        0
    } else {
        busy_count(s.drop_last()) + if s.last().value.asking != PeerAsking::Nothing {
            1nat
        } else {
            0nat
        }
    }
}

/// The number of peers that carry a request.
pub fn count_busy(peers: &Peers) -> (r: usize)
    ensures
        r == busy_count(peers.entries@),
{
    let mut r: usize = 0;
    let mut i: usize = 0;
    while i < peers.entries.len()
        invariant
            i <= peers.entries@.len(),
            r == busy_count(peers.entries@.subrange(0, i as int)),
            r <= i,
        decreases peers.entries@.len() - i,
    {
        proof {
            assert(peers.entries@.subrange(0, i + 1).drop_last() =~= peers.entries@.subrange(
                0,
                i as int,
            ));
        }
        if peers.entries[i].value.asking != PeerAsking::Nothing {
            r += 1;
        }
        i += 1;
    }
    assert(peers.entries@.subrange(0, peers.entries@.len() as int) =~= peers.entries@);
    r
}

/// Whether some peer that can be sent requests carries one that is not for
/// old blocks.
pub open spec fn round_is_busy(s: Seq<Entry<PeerInfo>>) -> bool {
    exists|i: int|
        0 <= i < s.len() && (#[trigger] s[i]).value.asking != PeerAsking::Nothing
            && s[i].value.block_set != Some(BlockSet::OldBlocks) && s[i].value.spec_can_sync()
}

pub fn is_round_busy(peers: &Peers) -> (r: bool)
    ensures
        r == round_is_busy(peers.entries@),
{
    let mut i: usize = 0;
    while i < peers.entries.len()
        invariant
            i <= peers.entries@.len(),
            forall|k: int|
                0 <= k < i ==> !((#[trigger] peers.entries@[k]).value.asking != PeerAsking::Nothing
                    && peers.entries@[k].value.block_set != Some(BlockSet::OldBlocks)
                    && peers.entries@[k].value.spec_can_sync()),
        decreases peers.entries@.len() - i,
    {
        let p = &peers.entries[i].value;
        if p.asking != PeerAsking::Nothing && p.block_set != Some(BlockSet::OldBlocks)
            && p.can_sync() {
            return true;
        }
        i += 1;
    }
    false
}

/// Whether a sync that stands in the given state and has no request in
/// flight is over.
pub open spec fn ends_when_idle(state: SyncState) -> bool {
    state != SyncState::WaitingPeers && state != SyncState::SnapshotWaiting && state
        != SyncState::Waiting && state != SyncState::Idle
}

/// The peers among those given that are asked for a manifest, in their
/// order: those that are registered and carry no request, each once.
pub open spec fn asked_for_manifest(s: Seq<Entry<PeerInfo>>, peers: Seq<PeerId>) -> Seq<PeerId>
    decreases peers.len(),
{
    if peers.len() == 0 {
        Seq::empty()
    } else {
        let rest = asked_for_manifest(s, peers.drop_last());
        let p = peers.last();
        if has_id(s, p) && s[position(s, p)].value.asking == PeerAsking::Nothing
            && !peers.drop_last().contains(p) {
            rest.push(p)
        } else {
            rest
        }
    }
}

/// The record of a peer after the peers listed were asked for a manifest:
/// a listed peer that carried no request now carries that one.
pub open spec fn manifest_asked(o: PeerInfo, listed: bool, now: Timestamp) -> PeerInfo {
    if listed && o.asking == PeerAsking::Nothing {
        PeerInfo { asking: PeerAsking::SnapshotManifest, ask_time: now, ..o }
    } else {
        o
    }
}

/// What was said from outside while work was sought for a peer.
pub struct Sought {
    /// Whether the caller insists on work for the peer.
    pub force: bool,
    /// The total difficulty of the chain with the blocks that wait in the
    /// queue, as the chain client tells it.
    pub pending: U256,
    /// Whether the chain client's queue of blocks is full.
    pub queue_full: bool,
    /// Whether the chain client knows the head of the peer.
    pub have_latest: bool,
    /// What the downloader of new blocks wants asked, where it was asked.
    pub new_request: Option<BlockRequest>,
    /// What the downloader of old blocks wants asked, where it was asked.
    pub old_request: Option<BlockRequest>,
    /// What the snapshot service said of the restoration.
    pub status: RestorationStatus,
}

impl<D: BlockDownloader> ChainSync<D> {
    /// Whether `sync_peer` looks for work for a peer at all: the peer takes
    /// part in the round, is registered, carries no request and can be sent
    /// one, and the synchroniser is not paused.
    pub open spec fn ready_for_work(&self, id: PeerId) -> bool {
        &&& self.active_peers.has(id)
        &&& self.peers.has(id)
        &&& self.peer(id).asking == PeerAsking::Nothing
        &&& self.peer(id).spec_can_sync()
        &&& self.state != SyncState::Waiting
        &&& self.state != SyncState::SnapshotWaiting
    }

    /// What snapshots are held against now.
    pub open spec fn snapshot_query(&self, our_best: u64) -> SnapshotQuery {
        SnapshotQuery {
            our_best,
            fork_block: self.fork_number(),
            expected_warp_block: self.warp_sync.spec_expected_block(),
            highest: self.highest_block,
        }
    }

    /// Whether the fetching of the snapshot `hash` may be started now, with
    /// our best block at `our_best`: it is the snapshot that most peers
    /// offer, `peers` are those that offer it, and they are enough, or the
    /// wait for peers has lasted too long.
    pub open spec fn may_start_snapshot(
        &self,
        our_best: u64,
        hash: H256,
        peers: Seq<PeerId>,
        now: Timestamp,
    ) -> bool {
        &&& self.warp_sync.spec_is_enabled()
        &&& crate::warp::is_best_snapshot(
            self.peers.entries@,
            self.snapshot_query(our_best),
            self.snapshot.bad_hashes,
            Some(hash),
            peers,
        )
        &&& peers.len() >= crate::primitives::SNAPSHOT_MIN_PEERS || crate::warp::spec_wait_is_over(
            self.state,
            self.sync_start_time,
            now,
        )
    }

    /// Whether `n` is this synchroniser after the given request of a
    /// downloader was sent to the given peer: the record of the peer says
    /// so, the packet is the last in the queue, and a synchroniser that was
    /// in step is now downloading blocks.
    pub open spec fn after_block_request(
        &self,
        n: Self,
        peer_id: PeerId,
        request: crate::env::BlockRequest,
        set: BlockSet,
        now: Timestamp,
    ) -> bool {
        &&& crate::requester::request_made(
            self.peers.entries@,
            n.peers.entries@,
            self.outbox@,
            n.outbox@,
            peer_id,
            crate::requester::asked_for(self.peer(peer_id), request, set, now),
            crate::requester::packet_of(request),
        )
        &&& crate::requester::payload_of(request) matches Some(payload)
            ==> crate::requester::last_payload(n.outbox@) == payload
        &&& n.state == if set == BlockSet::NewBlocks && self.state == SyncState::Idle {
            SyncState::Blocks
        } else {
            self.state
        }
    }

    /// Whether `n` is this synchroniser after the given peer was asked for
    /// the given chunk of the snapshot.
    pub open spec fn after_chunk_request(&self, n: Self, peer_id: PeerId, chunk: H256,
        now: Timestamp)
        -> bool {
        &&& crate::requester::request_made(
            self.peers.entries@,
            n.peers.entries@,
            self.outbox@,
            n.outbox@,
            peer_id,
            PeerInfo {
                asking: PeerAsking::SnapshotData,
                ask_time: now,
                asking_snapshot_data: Some(chunk),
                ..self.peer(peer_id)
            },
            crate::primitives::GET_SNAPSHOT_DATA_PACKET,
        )
        &&& crate::requester::last_payload(n.outbox@) == crate::codec::encoded_list(
            seq![crate::codec::encoded_bytes(chunk.bytes())],
        )
        &&& n.state == self.state
    }

    /// Whether `n` is this synchroniser after the fetching of a snapshot
    /// was started from the given peers.  Where no manifest is there yet,
    /// each of them that carries no request is asked for it, in their
    /// order, and the manifest is waited for; else the chunks are gone on
    /// with.
    pub open spec fn snapshot_started(&self, n: Self, peers: Seq<PeerId>, now: Timestamp) -> bool {
        &&& progresses(*self, n)
        &&& n == (ChainSync { state: n.state, peers: n.peers, outbox: n.outbox, ..*self })
        &&& if self.snapshot.snapshot_hash is Some {
            &&& n.state == SyncState::SnapshotData
            &&& n.peers == self.peers
            &&& n.outbox == self.outbox
        } else {
            &&& n.state == SyncState::SnapshotManifest
            &&& forall|i: int|
                0 <= i < self.peers.entries@.len() ==> n.peers.entries@[i].value
                    == manifest_asked(
                    (#[trigger] self.peers.entries@[i]).value,
                    peers.contains(self.peers.entries@[i].id),
                    now,
                )
            &&& crate::propagation::sent_to_each(
                self.outbox@,
                n.outbox@,
                asked_for_manifest(self.peers.entries@, peers),
                crate::primitives::GET_SNAPSHOT_MANIFEST_PACKET,
                crate::codec::encoded_list(Seq::empty()),
            )
        }
    }

    /// Starts fetching a snapshot from the given peers: see
    /// `snapshot_started`.
    pub fn start_snapshot_sync(&mut self, peers: &Vec<PeerId>, now: Timestamp)
        requires
            old(self).wf(),
        ensures
            old(self).snapshot_started(*final(self), peers@, now),
    {
        if !self.snapshot.have_manifest() {
            proof {
                assert(peers@.subrange(0, 0) =~= Seq::<PeerId>::empty());
            }
            let mut k: usize = 0;
            while k < peers.len()
                invariant
                    k <= peers@.len(),
                    self.wf(),
                    old(self).outbox@.is_prefix_of(self.outbox@),
                    crate::propagation::sent_to_each(
                        old(self).outbox@,
                        self.outbox@,
                        asked_for_manifest(old(self).peers.entries@, peers@.subrange(0, k as int)),
                        crate::primitives::GET_SNAPSHOT_MANIFEST_PACKET,
                        crate::codec::encoded_list(Seq::empty()),
                    ),
                    evolves(
                        old(self).peers.entries@,
                        self.peers.entries@,
                        self.outbox@,
                        old(self).outbox@.len() as int,
                    ),
                    forall|i: int|
                        0 <= i < old(self).peers.entries@.len() ==> self.peers.entries@[i].value
                            == manifest_asked(
                            (#[trigger] old(self).peers.entries@[i]).value,
                            peers@.subrange(0, k as int).contains(old(self).peers.entries@[i].id),
                            now,
                        ),
                    *self == (ChainSync {
                        peers: self.peers,
                        outbox: self.outbox,
                        ..*old(self)
                    }),
                decreases peers@.len() - k,
            {
                let p = peers[k];
                let ghost before = *self;
                let idle = match self.peers.get(p) {
                    Some(peer) => peer.asking == PeerAsking::Nothing,
                    None => false,
                };
                if idle {
                    request_snapshot_manifest(&mut self.peers, &mut self.outbox, p, now);
                }
                proof {
                    let a = old(self).peers.entries@;
                    let m = before.peers.entries@;
                    let b = self.peers.entries@;
                    let done = peers@.subrange(0, k as int);
                    let next = peers@.subrange(0, k + 1);
                    assert(next.drop_last() =~= done);
                    assert(next.last() == p);
                    crate::peer_map::lemma_same_ids_has(a, m, p);
                    if has_id(a, p) {
                        let at = position(a, p);
                        assert(m[at].id == p);
                        crate::peer_map::lemma_position_unique(m, at);
                    }
                    let asked = asked_for_manifest(a, done);
                    if idle {
                        assert(asked_for_manifest(a, next) == asked.push(p));
                        assert forall|j: int| 0 <= j < asked.len() + 1 implies (
                        #[trigger] self.outbox@[old(self).outbox@.len() + j]).sends(
                            asked.push(p)[j],
                            crate::primitives::GET_SNAPSHOT_MANIFEST_PACKET,
                            crate::codec::encoded_list(Seq::empty()),
                        ) by {
                            if j < asked.len() {
                                assert(self.outbox@[old(self).outbox@.len() + j]
                                    == before.outbox@[old(self).outbox@.len() + j]);
                            }
                        }
                    } else {
                        assert(asked_for_manifest(a, next) == asked);
                    }
                    lemma_evolves_trans(
                        a,
                        m,
                        b,
                        before.outbox@,
                        old(self).outbox@.len() as int,
                        self.outbox@,
                        before.outbox@.len() as int,
                    );
                    lemma_evolves_wf(a, b, self.outbox@, old(self).outbox@.len() as int);
                    crate::chain_sync::lemma_prefix_trans(
                        old(self).outbox@,
                        before.outbox@,
                        self.outbox@,
                    );
                    assert(next =~= done.push(p));
                    assert forall|id: PeerId| next.contains(id) == (done.contains(id) || id
                        == p) by {
                        if done.contains(id) {
                            let j = choose|j: int| 0 <= j < done.len() && done[j] == id;
                            assert(next[j] == id);
                        }
                        if id == p {
                            assert(next[k as int] == p);
                        }
                    }
                    assert forall|i: int| 0 <= i < a.len() implies b[i].value == manifest_asked(
                        (#[trigger] a[i]).value,
                        next.contains(a[i].id),
                        now,
                    ) by {
                        assert(a[i].id == m[i].id);
                        if has_id(m, p) {
                            let at = position(m, p);
                            crate::peer_map::lemma_position_unique(m, i);
                            if i == at {
                            } else {
                                assert(m[i].id != p);
                            }
                        } else {
                            assert(m[i].id != p);
                        }
                    }
                }
                k += 1;
            }
            assert(peers@.subrange(0, peers@.len() as int) =~= peers@);
            self.state = SyncState::SnapshotManifest;
        } else {
            self.state = SyncState::SnapshotData;
        }
    }
}

impl<D: BlockDownloader> ChainSync<D> {
    /// Whether `n` is this synchroniser after it was looked whether a
    /// snapshot is to be fetched, where the snapshot service restores the
    /// versions in `supported`, our best block is at `our_best`, and `best`
    /// is the snapshot that most peers offer, `peers` being those.
    ///
    /// Nothing is done where snapshots are switched off or cannot be
    /// restored, or in a state other than waiting for peers, downloading
    /// blocks or being paused.  Else `snapshot_choice` says what is done:
    /// the fetching of the snapshot is started, or snapshots are given up
    /// and blocks are downloaded (`mid`), or nothing yet.
    pub open spec fn snapshot_considered(
        &self,
        mid: Self,
        n: Self,
        supported: Option<(u64, u64)>,
        our_best: u64,
        best: Option<H256>,
        peers: Seq<PeerId>,
        now: Timestamp,
    ) -> bool {
        if !self.warp_sync.spec_is_enabled() || supported is None || (self.state
            != SyncState::WaitingPeers && self.state != SyncState::Blocks && self.state
            != SyncState::Waiting) {
            mid == *self && n == mid
        } else {
            &&& crate::warp::is_best_snapshot(
                self.peers.entries@,
                self.snapshot_query(our_best),
                self.snapshot.bad_hashes,
                best,
                peers,
            )
            &&& match crate::warp::spec_snapshot_choice(
                best is Some,
                peers.len(),
                crate::warp::spec_wait_is_over(self.state, self.sync_start_time, now),
                self.warp_sync.spec_is_warp_only(),
            ) {
                SnapshotChoice::Start => mid == *self && self.snapshot_started(n, peers, now),
                SnapshotChoice::FullSync => mid == (ChainSync { state: SyncState::Idle, ..*self })
                    && mid.goes_on(n, now),
                SnapshotChoice::Wait => mid == *self && n == mid,
            }
        }
    }

    /// Looks whether a snapshot is to be fetched, and starts on it or gives
    /// up on snapshots: see `snapshot_considered`.
    pub fn maybe_start_snapshot_sync<I: SyncIo>(&mut self, io: &mut I, now: Timestamp)
        requires
            old(self).wf(),
        ensures
            exists|
                mid: Self,
                supported: Option<(u64, u64)>,
                our_best: u64,
                best: Option<H256>,
                peers: Seq<PeerId>,
            | #[trigger]
                old(self).snapshot_considered(
                    mid,
                    *final(self),
                    supported,
                    our_best,
                    best,
                    peers,
                    now,
                ),
            progresses(*old(self), *final(self)),
            !old(self).warp_sync.spec_is_enabled() || (old(self).state != SyncState::WaitingPeers
                && old(self).state != SyncState::Blocks && old(self).state != SyncState::Waiting)
                ==> *final(self) == *old(self),
            enters_snapshot(old(self).state, final(self).state) ==> exists|
                our_best: u64,
                hash: H256,
                peers: Seq<PeerId>,
            | #[trigger] old(self).may_start_snapshot(our_best, hash, peers, now),
            old(self).state == SyncState::WaitingPeers && final(self).state
                != SyncState::WaitingPeers && !is_snapshot_state(final(self).state)
                ==> crate::warp::spec_wait_is_over(
                old(self).state,
                old(self).sync_start_time,
                now,
            ) && !old(self).warp_sync.spec_is_warp_only(),
        decreases waiting_rank(old(self).state), 0nat,
    {
        if !self.warp_sync.is_enabled() {
            proof {
                lemma_progress_refl(*self);
                assert(old(self).snapshot_considered(
                    *self,
                    *self,
                    None,
                    0,
                    None,
                    Seq::empty(),
                    now,
                ));
            }
            return ;
        }
        let supported = io.supported_versions();
        if supported.is_none() || (self.state != SyncState::WaitingPeers && self.state
            != SyncState::Blocks && self.state != SyncState::Waiting) {
            proof {
                lemma_progress_refl(*self);
                assert(old(self).snapshot_considered(
                    *self,
                    *self,
                    supported,
                    0,
                    None,
                    Seq::empty(),
                    now,
                ));
            }
            return ;
        }
        let our_best = io.chain_info().best_block_number;
        let query = SnapshotQuery {
            our_best,
            fork_block: match self.fork_block {
                Some((number, _)) => number,
                None => 0,
            },
            expected_warp_block: self.warp_sync.expected_block(),
            highest: self.highest_block,
        };
        let (best, peers) = best_snapshot(&self.peers, &query, &self.snapshot.bad_hashes);
        let timeout = wait_is_over(self.state, self.sync_start_time, now);
        let choice = snapshot_choice(
            best.is_some(),
            peers.len(),
            timeout,
            self.warp_sync.is_warp_only(),
        );
        match choice {
            SnapshotChoice::Start => {
                proof {
                    assert(old(self).may_start_snapshot(our_best, best->0, peers@, now));
                }
                self.start_snapshot_sync(&peers, now);
                proof {
                    assert(old(self).snapshot_considered(
                        *old(self),
                        *self,
                        supported,
                        our_best,
                        best,
                        peers@,
                        now,
                    ));
                }
            },
            SnapshotChoice::FullSync => {
                self.state = SyncState::Idle;
                let ghost mid = *self;
                proof {
                    lemma_progress_refl(*old(self));
                    assert(progresses(*old(self), mid));
                }
                self.continue_sync(io, now);
                proof {
                    lemma_progress_trans(*old(self), mid, *self);
                    assert(old(self).snapshot_considered(
                        mid,
                        *self,
                        supported,
                        our_best,
                        best,
                        peers@,
                        now,
                    ));
                }
            },
            SnapshotChoice::Wait => {
                proof {
                    lemma_progress_refl(*self);
                    assert(old(self).snapshot_considered(
                        *self,
                        *self,
                        supported,
                        our_best,
                        best,
                        peers@,
                        now,
                    ));
                }
            },
        }
    }

    /// As `snapshot_considered`, but of what follows where snapshots are
    /// given up only that it is allowed.
    pub open spec fn snapshot_weighed(
        &self,
        mid: Self,
        n: Self,
        supported: Option<(u64, u64)>,
        our_best: u64,
        best: Option<H256>,
        peers: Seq<PeerId>,
        now: Timestamp,
    ) -> bool {
        if !self.warp_sync.spec_is_enabled() || supported is None || (self.state
            != SyncState::WaitingPeers && self.state != SyncState::Blocks && self.state
            != SyncState::Waiting) {
            mid == *self && n == mid
        } else {
            &&& crate::warp::is_best_snapshot(
                self.peers.entries@,
                self.snapshot_query(our_best),
                self.snapshot.bad_hashes,
                best,
                peers,
            )
            &&& match crate::warp::spec_snapshot_choice(
                best is Some,
                peers.len(),
                crate::warp::spec_wait_is_over(self.state, self.sync_start_time, now),
                self.warp_sync.spec_is_warp_only(),
            ) {
                SnapshotChoice::Start => mid == *self && self.snapshot_started(n, peers, now),
                SnapshotChoice::FullSync => mid == (ChainSync { state: SyncState::Idle, ..*self })
                    && progresses(mid, n),
                SnapshotChoice::Wait => mid == *self && n == mid,
            }
        }
    }

    /// Whether a peer is ahead of a chain of the given total difficulty: its
    /// own is greater, or not known.
    pub open spec fn is_ahead(&self, peer_id: PeerId, pending: U256) -> bool {
        match self.peer(peer_id).difficulty {
            Some(d) => d.value() > pending.value(),
            None => true,
        }
    }

    /// Whether `n` is this synchroniser after the given request of a
    /// downloader was sent to the given peer, and nothing else was done.
    pub open spec fn block_request_sent(
        &self,
        n: Self,
        peer_id: PeerId,
        request: BlockRequest,
        set: BlockSet,
        now: Timestamp,
    ) -> bool {
        &&& self.after_block_request(n, peer_id, request, set, now)
        &&& n == (ChainSync { peers: n.peers, outbox: n.outbox, state: n.state, ..*self })
    }

    /// Whether `n` is this synchroniser after blocks were sought for a peer
    /// while blocks are downloaded or the synchroniser is in step.
    ///
    /// With a full queue the sync is paused.  Else the downloader of new
    /// blocks is asked where the peer is asked for new blocks, see
    /// `spec_wants_new_blocks`; where it was not asked or wants nothing, the
    /// downloader of old blocks is asked, where there is one (`asked`).
    /// What the first of them wants is sent to the peer.
    pub open spec fn blocks_sought(
        &self,
        asked: Self,
        n: Self,
        peer_id: PeerId,
        now: Timestamp,
        a: Sought,
    ) -> bool {
        let wants_new = spec_wants_new_blocks(
            a.have_latest,
            self.is_ahead(peer_id, a.pending),
            a.force,
            self.state,
        );
        if a.queue_full {
            asked == *self && n == (ChainSync { state: SyncState::Waiting, ..*self })
        } else {
            &&& asked == (ChainSync {
                new_blocks: asked.new_blocks,
                old_blocks: asked.old_blocks,
                ..*self
            })
            &&& asked.old_blocks is Some == self.old_blocks is Some
            &&& !wants_new ==> asked.new_blocks == self.new_blocks
            &&& wants_new && a.new_request is Some ==> asked.old_blocks == self.old_blocks
            &&& if wants_new && a.new_request is Some {
                asked.block_request_sent(n, peer_id, a.new_request->0, BlockSet::NewBlocks, now)
            } else if self.old_blocks is Some && a.old_request is Some {
                asked.block_request_sent(n, peer_id, a.old_request->0, BlockSet::OldBlocks, now)
            } else {
                n == asked
            }
        }
    }

    /// Whether `n` is this synchroniser after a chunk of the snapshot was
    /// sought for a peer, where the snapshot service told `status`.
    ///
    /// Where more chunks wait to be restored than the service is to be run
    /// ahead of, its progress is waited for.  Else a peer that offers the
    /// snapshot that is being fetched is asked for the chunk that is needed
    /// next, where one is.
    pub open spec fn chunk_sought(
        &self,
        n: Self,
        peer_id: PeerId,
        now: Timestamp,
        status: RestorationStatus,
    ) -> bool {
        let done = self.snapshot.completed_chunks.items@.len() as usize;
        let offered = self.peer(peer_id).snapshot_hash;
        if status matches RestorationStatus::Ongoing { state_chunks_done, block_chunks_done }
            && spec_backlog_full(done, state_chunks_done, block_chunks_done) {
            n == (ChainSync { state: SyncState::SnapshotWaiting, ..*self })
        } else if offered is Some && offered == self.snapshot.snapshot_hash {
            exists|chunk: Option<H256>|
                {
                    &&& #[trigger] self.snapshot.is_next_needed(chunk)
                    &&& match chunk {
                        Some(hash) => {
                            &&& self.after_chunk_request(n, peer_id, hash, now)
                            &&& n == (ChainSync {
                                peers: n.peers,
                                outbox: n.outbox,
                                snapshot: n.snapshot,
                                ..*self
                            })
                            &&& n.snapshot.wf()
                            &&& n.snapshot == (Snapshot {
                                downloading_chunks: n.snapshot.downloading_chunks,
                                ..self.snapshot
                            })
                            &&& forall|h: H256|
                                n.snapshot.downloading_chunks.has(h) == (
                                self.snapshot.downloading_chunks.has(h) || h == hash)
                        },
                        None => n == *self,
                    }
                }
        } else {
            n == *self
        }
    }

    /// Whether `n` is this synchroniser after work was sought for a peer,
    /// where `a` was said from outside.
    ///
    /// Nothing is done for a peer that is not ready for work, see
    /// `ready_for_work`, nor for one that is not ahead of us, unless the
    /// caller insists or old blocks are fetched.  Else it depends on the
    /// state what is done: while peers are waited for, the start of a
    /// snapshot sync is considered; while blocks are downloaded or the
    /// synchroniser is in step, see `blocks_sought`; while a snapshot is
    /// fetched, see `chunk_sought`; in any other state, nothing.  `asked` is
    /// the synchroniser after the downloaders were asked.
    pub open spec fn work_sought(
        &self,
        asked: Self,
        n: Self,
        peer_id: PeerId,
        now: Timestamp,
        a: Sought,
    ) -> bool {
        if !self.ready_for_work(peer_id) || !(a.force || self.is_ahead(peer_id, a.pending)
            || self.old_blocks is Some) {
            asked == *self && n == *self
        } else if self.state == SyncState::WaitingPeers {
            asked == *self && exists|
                mid: Self,
                supported: Option<(u64, u64)>,
                our_best: u64,
                best: Option<H256>,
                peers: Seq<PeerId>,
            | #[trigger] self.snapshot_weighed(mid, n, supported, our_best, best, peers, now)
        } else if self.state == SyncState::Idle || self.state == SyncState::Blocks || self.state
            == SyncState::NewBlocks {
            self.blocks_sought(asked, n, peer_id, now, a)
        } else if self.state == SyncState::SnapshotData {
            asked == *self && self.chunk_sought(n, peer_id, now, a.status)
        } else {
            asked == *self && n == *self
        }
    }

    /// Whether `n` is this synchroniser after work was sought for a peer:
    /// see `work_sought` for what is done.
    ///
    /// Outside the wait for peers, no other peer's record is touched and at
    /// most one packet is queued: with none, the downloaders were asked in
    /// vain, the sync was paused, or the feeding of the snapshot service
    /// was; with one, the peer was asked for blocks or for a chunk of the
    /// snapshot.
    pub open spec fn offers_work(&self, n: Self, peer_id: PeerId, force: bool, now: Timestamp)
        -> bool {
        &&& progresses(*self, n)
        &&& exists|asked: Self, a: Sought|
            a.force == force && #[trigger] self.work_sought(asked, n, peer_id, now, a)
        &&& !self.ready_for_work(peer_id) ==> n == *self
        &&& self.state == SyncState::SnapshotManifest ==> n == *self
        &&& enters_snapshot(self.state, n.state) ==> self.state == SyncState::WaitingPeers
            && exists|our_best: u64, hash: H256, peers: Seq<PeerId>|
                #[trigger] self.may_start_snapshot(our_best, hash, peers, now)
        &&& self.state != SyncState::WaitingPeers ==> {
            &&& n.outbox@.len() <= self.outbox@.len() + 1
            &&& forall|i: int|
                0 <= i < self.peers.entries@.len() && (#[trigger] self.peers.entries@[i]).id
                    != peer_id ==> n.peers.entries@[i] == self.peers.entries@[i]
            &&& n.outbox@.len() == self.outbox@.len() ==> self.asked_in_vain(n)
            &&& n.outbox@.len() == self.outbox@.len() + 1 ==> (exists|
                request: crate::env::BlockRequest,
                set: BlockSet,
            | #[trigger] self.after_block_request(n, peer_id, request, set, now)) || (exists|
                chunk: H256,
            | #[trigger] self.after_chunk_request(n, peer_id, chunk, now))
        }
    }

    /// Whether `n` is this synchroniser after work was sought for a peer
    /// and none was found: the downloaders had nothing to ask for, or the
    /// sync was paused, or in the fetching of a snapshot no chunk was asked
    /// for and the feeding of the snapshot service may have been paused.
    pub open spec fn asked_in_vain(&self, n: Self) -> bool {
        ||| n == (ChainSync { new_blocks: n.new_blocks, old_blocks: n.old_blocks, ..*self })
        ||| n == (ChainSync { state: SyncState::Waiting, ..*self })
        ||| {
            &&& self.state == SyncState::SnapshotData
            &&& n.peers == self.peers
            &&& n.outbox == self.outbox
            &&& n.state == SyncState::SnapshotWaiting || n.state == SyncState::SnapshotData
        }
    }

    /// Finds something to do for a peer.  See `ready_for_work` for the
    /// peers that are looked at; what they are asked for depends on the
    /// state and on what the chain client, the downloaders and the snapshot
    /// service answer: see `work_sought`.  Outside the wait for peers, no
    /// other peer's record is touched and at most one packet is queued.
    pub fn sync_peer<I: SyncIo>(&mut self, io: &mut I, peer_id: PeerId, force: bool, now: Timestamp)
        requires
            old(self).wf(),
        ensures
            old(self).offers_work(*final(self), peer_id, force, now),
        decreases waiting_rank(old(self).state), 1nat,
    {
        let ghost idle = Sought {
            force,
            pending: arbitrary(),
            queue_full: false,
            have_latest: false,
            new_request: None,
            old_request: None,
            status: RestorationStatus::Inactive,
        };
        proof {
            lemma_progress_refl(*self);
        }
        if !self.active_peers.contains_key(peer_id) {
            proof {
                assert(old(self).work_sought(*self, *self, peer_id, now, idle));
            }
            return ;
        }
        let (peer_latest, peer_difficulty, peer_snapshot_hash) = match self.peers.get(peer_id) {
            Some(peer) => {
                if peer.asking != PeerAsking::Nothing || !peer.can_sync() {
                    proof {
                        assert(old(self).work_sought(*self, *self, peer_id, now, idle));
                    }
                    return ;
                }
                if self.state == SyncState::Waiting {
                    proof {
                        assert(old(self).work_sought(*self, *self, peer_id, now, idle));
                    }
                    return ;
                }
                if self.state == SyncState::SnapshotWaiting {
                    proof {
                        assert(old(self).work_sought(*self, *self, peer_id, now, idle));
                    }
                    return ;
                }
                (peer.latest_hash, peer.difficulty, peer.snapshot_hash)
            },
            None => {
                proof {
                    assert(old(self).work_sought(*self, *self, peer_id, now, idle));
                }
                return ;
            },
        };
        let chain_info = io.chain_info();
        let syncing_difficulty = chain_info.pending_total_difficulty;
        let num_active_peers = count_busy(&self.peers);
        let higher_difficulty = match peer_difficulty {
            Some(pd) => pd.gt(&syncing_difficulty),
            None => true,
        };
        let ghost told = Sought { pending: syncing_difficulty, ..idle };
        proof {
            assert(old(self).ready_for_work(peer_id));
            assert(higher_difficulty == old(self).is_ahead(peer_id, syncing_difficulty));
        }
        if force || higher_difficulty || self.old_blocks.is_some() {
            match self.state {
                SyncState::WaitingPeers => {
                    self.maybe_start_snapshot_sync(io, now);
                    proof {
                        let (mid, supported, our_best, best, peers) = choose|
                            mid: Self,
                            supported: Option<(u64, u64)>,
                            our_best: u64,
                            best: Option<H256>,
                            peers: Seq<PeerId>,
                        | #[trigger]
                            old(self).snapshot_considered(
                                mid,
                                *self,
                                supported,
                                our_best,
                                best,
                                peers,
                                now,
                            );
                        assert(old(self).snapshot_weighed(
                            mid,
                            *self,
                            supported,
                            our_best,
                            best,
                            peers,
                            now,
                        ));
                        assert(old(self).work_sought(*old(self), *self, peer_id, now, told));
                    }
                },
                SyncState::Idle | SyncState::Blocks | SyncState::NewBlocks => {
                    if io.queue_info().is_full() {
                        self.pause_sync();
                        proof {
                            let a = Sought { queue_full: true, ..told };
                            assert(old(self).blocks_sought(*old(self), *self, peer_id, now, a));
                            assert(old(self).work_sought(*old(self), *self, peer_id, now, a));
                        }
                        return ;
                    }
                    let have_latest = io.block_status(&peer_latest) != BlockStatus::Unknown;
                    let ghost known = Sought { have_latest, ..told };
                    if wants_new_blocks(have_latest, higher_difficulty, force, self.state) {
                        if let Some(request) = self.new_blocks.request_blocks(io,
                            num_active_peers) {
                            let ghost asked = *self;
                            request_blocks(
                                &mut self.peers,
                                &mut self.outbox,
                                peer_id,
                                request,
                                BlockSet::NewBlocks,
                                now,
                            );
                            if self.state == SyncState::Idle {
                                self.state = SyncState::Blocks;
                            }
                            proof {
                                lemma_evolves_wf(
                                    old(self).peers.entries@,
                                    self.peers.entries@,
                                    self.outbox@,
                                    old(self).outbox@.len() as int,
                                );
                                assert(old(self).after_block_request(
                                    *self,
                                    peer_id,
                                    request,
                                    BlockSet::NewBlocks,
                                    now,
                                ));
                                let a = Sought { new_request: Some(request), ..known };
                                assert(asked.block_request_sent(
                                    *self,
                                    peer_id,
                                    request,
                                    BlockSet::NewBlocks,
                                    now,
                                ));
                                assert(old(self).blocks_sought(asked, *self, peer_id, now, a));
                                assert(old(self).work_sought(asked, *self, peer_id, now, a));
                            }
                            return ;
                        }
                    }
                    let old_request = match &mut self.old_blocks {
                        Some(d) => d.request_blocks(io, num_active_peers),
                        None => None,
                    };
                    let ghost asked = *self;
                    let ghost a = Sought { old_request, ..known };
                    if let Some(request) = old_request {
                        request_blocks(
                            &mut self.peers,
                            &mut self.outbox,
                            peer_id,
                            request,
                            BlockSet::OldBlocks,
                            now,
                        );
                        proof {
                            lemma_evolves_wf(
                                old(self).peers.entries@,
                                self.peers.entries@,
                                self.outbox@,
                                old(self).outbox@.len() as int,
                            );
                            assert(old(self).after_block_request(
                                *self,
                                peer_id,
                                request,
                                BlockSet::OldBlocks,
                                now,
                            ));
                            assert(asked.block_request_sent(
                                *self,
                                peer_id,
                                request,
                                BlockSet::OldBlocks,
                                now,
                            ));
                            assert(old(self).blocks_sought(asked, *self, peer_id, now, a));
                            assert(old(self).work_sought(asked, *self, peer_id, now, a));
                        }
                        return ;
                    }
                    proof {
                        assert(old(self).blocks_sought(asked, *self, peer_id, now, a));
                        assert(old(self).work_sought(asked, *self, peer_id, now, a));
                    }
                },
                SyncState::SnapshotData => {
                    let status = io.snapshot_status();
                    let ghost a = Sought { status, ..told };
                    if let RestorationStatus::Ongoing { state_chunks_done, block_chunks_done } =
                        status {
                        if backlog_full(
                            self.snapshot.done_chunks(),
                            state_chunks_done,
                            block_chunks_done,
                        ) {
                            self.state = SyncState::SnapshotWaiting;
                            proof {
                                assert(old(self).chunk_sought(*self, peer_id, now, status));
                                assert(old(self).work_sought(*old(self), *self, peer_id, now, a));
                            }
                            return ;
                        }
                    }
                    if peer_snapshot_hash.is_some() && peer_snapshot_hash
                        == self.snapshot.snapshot_hash() {
                        self.clear_peer_download(peer_id);
                        let chunk = request_snapshot_data(
                            &mut self.peers,
                            &mut self.snapshot,
                            &mut self.outbox,
                            peer_id,
                            now,
                        );
                        proof {
                            lemma_evolves_wf(
                                old(self).peers.entries@,
                                self.peers.entries@,
                                self.outbox@,
                                old(self).outbox@.len() as int,
                            );
                            if let Some(hash) = chunk {
                                assert(old(self).after_chunk_request(*self, peer_id, hash, now));
                            }
                            assert(old(self).snapshot.is_next_needed(chunk));
                            assert(old(self).chunk_sought(*self, peer_id, now, status));
                        }
                    } else {
                        proof {
                            assert(old(self).chunk_sought(*self, peer_id, now, status));
                        }
                    }
                    proof {
                        assert(old(self).work_sought(*old(self), *self, peer_id, now, a));
                    }
                },
                SyncState::SnapshotManifest | SyncState::Waiting | SyncState::SnapshotWaiting => {
                    proof {
                        assert(old(self).work_sought(*self, *self, peer_id, now, told));
                    }
                },
            }
        } else {
            proof {
                assert(old(self).work_sought(*self, *self, peer_id, now, told));
            }
        }
    }

    /// Whether `n` is this synchroniser after work was sought for each of
    /// the given peers in turn, as far as they take part in the round.
    pub open spec fn offered(&self, n: Self, order: Seq<PeerId>, now: Timestamp) -> bool
        decreases order.len(),
    {
        if order.len() == 0 {
            n == *self
        } else {
            exists|mid: Self|
                {
                    &&& self.offered(mid, order.drop_last(), now)
                    &&& #[trigger] mid.offered_one(n, order.last(), now)
                }
        }
    }

    /// Whether `n` is this synchroniser after work was sought for the given
    /// peer, if it takes part in the round.
    pub open spec fn offered_one(&self, n: Self, peer_id: PeerId, now: Timestamp) -> bool {
        if self.active_peers.has(peer_id) {
            self.offers_work(n, peer_id, false, now)
        } else {
            n == *self
        }
    }

    /// Whether `n` is this synchroniser after the sync went on: the peers
    /// that can be sent requests were put in a random order of ascending
    /// protocol version (`first`, `order`), work was sought for each in turn
    /// (`mid`), and a sync that was then left without a request in flight
    /// was ended.
    pub open spec fn went_on(
        &self,
        first: Self,
        mid: Self,
        n: Self,
        order: Seq<PeerId>,
        now: Timestamp,
    ) -> bool {
        &&& first == (ChainSync { random: first.random, ..*self })
        &&& order.to_multiset() == crate::order::eligible_ids(self.peers.entries@).to_multiset()
        &&& crate::order::ascending(self.peers.entries@, order)
        &&& first.offered(mid, order, now)
        &&& if ends_when_idle(mid.state) && !round_is_busy(mid.peers.entries@) {
            mid.round_ended(n)
        } else {
            n == mid
        }
    }

    /// Whether `n` is this synchroniser after the sync went on at `now`:
    /// see `went_on`.  Only from the wait for peers is a snapshot sync
    /// entered, and in a state in which a sync without a request in flight
    /// is over, some request is in flight.
    pub open spec fn goes_on(&self, n: Self, now: Timestamp) -> bool {
        &&& progresses(*self, n)
        &&& enters_snapshot(self.state, n.state) ==> self.state == SyncState::WaitingPeers
        &&& ends_when_idle(n.state) ==> round_is_busy(n.peers.entries@)
        &&& exists|first: Self, mid: Self, order: Seq<PeerId>| #[trigger]
            self.went_on(first, mid, n, order, now)
    }

    /// Whether `n` is this synchroniser after work was sought for the given
    /// peer (`offered`) and the sync went on.
    pub open spec fn offered_on(&self, offered: Self, n: Self, peer_id: PeerId, now: Timestamp)
        -> bool {
        self.offers_work(offered, peer_id, false, now) && offered.goes_on(n, now)
    }

    /// Whether `n` is this synchroniser after work was sought for the given
    /// peer at any rate (`offered`) and the sync went on.
    pub open spec fn pressed_on(&self, offered: Self, n: Self, peer_id: PeerId, now: Timestamp)
        -> bool {
        self.offers_work(offered, peer_id, true, now) && offered.goes_on(n, now)
    }

    /// Goes on with the sync: see `went_on`.
    pub fn continue_sync<I: SyncIo>(&mut self, io: &mut I, now: Timestamp)
        requires
            old(self).wf(),
        ensures
            progresses(*old(self), *final(self)),
            enters_snapshot(old(self).state, final(self).state) ==> old(self).state
                == SyncState::WaitingPeers,
            ends_when_idle(final(self).state) ==> round_is_busy(final(self).peers.entries@),
            old(self).goes_on(*final(self), now),
        decreases waiting_rank(old(self).state), 2nat,
    {
        let order = sync_order(&self.peers, &mut self.random);
        let ghost first = *self;
        proof {
            lemma_progress_refl(*self);
            assert(order@.subrange(0, 0) =~= Seq::<PeerId>::empty());
        }
        let mut k: usize = 0;
        while k < order.len()
            invariant
                k <= order@.len(),
                progresses(*old(self), *self),
                enters_snapshot(old(self).state, self.state) ==> old(self).state
                    == SyncState::WaitingPeers,
                first.offered(*self, order@.subrange(0, k as int), now),
            decreases order@.len() - k,
        {
            let p = order[k];
            let ghost before = *self;
            if self.active_peers.contains_key(p) {
                self.sync_peer(io, p, false, now);
                proof {
                    lemma_progress_trans(*old(self), before, *self);
                }
            }
            proof {
                let upto = order@.subrange(0, k + 1);
                assert(upto.drop_last() =~= order@.subrange(0, k as int));
                assert(upto.last() == p);
                assert(first.offered(before, upto.drop_last(), now));
                assert(before.offered_one(*self, upto.last(), now));
            }
            k += 1;
        }
        let ghost mid = *self;
        proof {
            assert(order@.subrange(0, order@.len() as int) =~= order@);
        }
        if self.state != SyncState::WaitingPeers && self.state != SyncState::SnapshotWaiting
            && self.state != SyncState::Waiting && self.state != SyncState::Idle && !is_round_busy(
            &self.peers,
        ) {
            self.complete_sync(io);
            proof {
                lemma_progress_trans(*old(self), mid, *self);
            }
        }
        proof {
            assert(old(self).went_on(first, mid, *self, order@, now));
        }
    }

    /// Whether `n` is this synchroniser after it started over at `now`:
    /// what was fetched of a snapshot is forgotten (`cleared`), a new round
    /// is started (`fresh`), and the sync goes on.
    pub open spec fn started_over(&self, cleared: Self, fresh: Self, n: Self, now: Timestamp)
        -> bool {
        &&& cleared == (ChainSync { snapshot: cleared.snapshot, ..*self })
        &&& cleared.snapshot.wf()
        &&& cleared.snapshot.snapshot_hash is None
        &&& cleared.snapshot.spec_total_chunks() == 0
        &&& cleared.snapshot.completed_chunks.items@.len() == 0
        &&& cleared.snapshot.downloading_chunks.items@.len() == 0
        &&& cleared.snapshot.bad_hashes == self.snapshot.bad_hashes
        &&& cleared.round_reset(fresh)
        &&& fresh.goes_on(n, now)
    }

    /// Whether `n` is this synchroniser after it started over at `now`: see
    /// `started_over`.  Every request that is in flight afterwards was made
    /// after the start, but for requests for old blocks and those for the
    /// header of the fork block.
    pub open spec fn starts_over(&self, n: Self, now: Timestamp) -> bool {
        &&& progresses(*self, n)
        &&& renewed(self.peers.entries@, n.peers.entries@, n.outbox@, self.outbox@.len() as int)
        &&& exists|cleared: Self, fresh: Self| #[trigger]
            self.started_over(cleared, fresh, n, now)
    }

    /// Whether `n` is this synchroniser after it started over at `now` with
    /// new downloaders: see `retargeted` and `starts_over`.
    pub open spec fn restarts(&self, n: Self, now: Timestamp) -> bool {
        &&& progresses(*self, n)
        &&& renewed(self.peers.entries@, n.peers.entries@, n.outbox@, self.outbox@.len() as int)
        &&& exists|aimed: Self, info: crate::env::ChainInfo| #[trigger]
            self.retargeted(aimed, info) && aimed.starts_over(n, now)
    }

    /// Starts over: a snapshot restoration that is fed is called off, the
    /// snapshot being fetched is forgotten, a new round starts and work is
    /// handed out.
    pub fn reset_and_continue<I: SyncIo>(&mut self, io: &mut I, now: Timestamp)
        requires
            old(self).wf(),
        ensures
            progresses(*old(self), *final(self)),
            renewed(
                old(self).peers.entries@,
                final(self).peers.entries@,
                final(self).outbox@,
                old(self).outbox@.len() as int,
            ),
            old(self).starts_over(*final(self), now),
    {
        if self.state == SyncState::SnapshotData {
            io.abort_restore();
        }
        self.snapshot.clear();
        let ghost g0 = *self;
        proof {
            lemma_progress_refl(*old(self));
            assert(progresses(*old(self), g0));
        }
        self.reset(io);
        let ghost g1 = *self;
        proof {
            lemma_progress_trans(*old(self), g0, g1);
        }
        self.continue_sync(io, now);
        proof {
            lemma_progress_trans(*old(self), g1, *self);
            let o = old(self).peers.entries@;
            let m = g1.peers.entries@;
            let n = self.peers.entries@;
            assert forall|i: int| 0 <= i < o.len() && crate::relations::live(
                (#[trigger] n[i]).value,
            ) implies crate::action::requested(self.outbox@, old(self).outbox@.len() as int,
                n[i].id)
                || o[i].value.block_set == Some(BlockSet::OldBlocks) || o[i].value.confirmation
                == crate::peer::ForkConfirmation::Unconfirmed by {
                assert(crate::relations::peer_evolves(
                    m[i].value,
                    n[i].value,
                    m[i].id,
                    self.outbox@,
                    g1.outbox@.len() as int,
                ));
                assert(o[i].id == m[i].id && m[i].id == n[i].id);
                let ov = o[i].value;
                let mv = m[i].value;
                if ov.block_set != Some(BlockSet::OldBlocks) && ov.confirmation
                    != crate::peer::ForkConfirmation::Unconfirmed {
                    assert(!crate::relations::live(mv));
                }
            }
            assert(old(self).started_over(g0, g1, *self, now));
        }
    }
}

impl<D: BlockDownloader> ChainSync<D> {
    /// Starts over on a chain that was changed from outside or that took a
    /// bad block: new downloaders are made, then as `reset_and_continue`.
    pub fn restart<I: SyncIo>(&mut self, io: &mut I, now: Timestamp)
        requires
            old(self).wf(),
        ensures
            progresses(*old(self), *final(self)),
            renewed(
                old(self).peers.entries@,
                final(self).peers.entries@,
                final(self).outbox@,
                old(self).outbox@.len() as int,
            ),
            old(self).restarts(*final(self), now),
    {
        let chain_info = io.chain_info();
        self.update_targets(&chain_info);
        let ghost g0 = *self;
        proof {
            lemma_progress_refl(*old(self));
            assert(progresses(*old(self), g0));
        }
        self.reset_and_continue(io, now);
        proof {
            lemma_progress_trans(*old(self), g0, *self);
            assert(old(self).retargeted(g0, chain_info));
        }
    }

    /// Whether `n` is this synchroniser after the downloader of the given
    /// set handed the blocks that are complete to the chain client
    /// (`handed`) and gave the given verdict.  Where it found a bad block
    /// the sync started over; a downloader for old blocks may have had no
    /// more to do, and is dropped then.  Without a downloader for old
    /// blocks nothing is done for them.
    pub open spec fn collected(
        &self,
        handed: Self,
        n: Self,
        set: BlockSet,
        verdict: Result<(), DownloaderImportError>,
        now: Timestamp,
    ) -> bool {
        &&& handed == (ChainSync {
            new_blocks: handed.new_blocks,
            old_blocks: handed.old_blocks,
            ..*self
        })
        &&& handed.old_blocks is Some == self.old_blocks is Some
        &&& if set == BlockSet::OldBlocks && self.old_blocks is None {
            n == *self
        } else if verdict == Err::<(), DownloaderImportError>(DownloaderImportError::Invalid) {
            handed.restarts(n, now)
        } else if set == BlockSet::OldBlocks {
            n == handed || n == (ChainSync { old_blocks: None, ..handed })
        } else {
            n == handed
        }
    }

    /// Whether `n` is this synchroniser after the blocks of the given set
    /// that are complete were collected: see `collected`.
    pub open spec fn collects(&self, n: Self, set: BlockSet, now: Timestamp) -> bool {
        &&& progresses(*self, n)
        &&& exists|handed: Self, verdict: Result<(), DownloaderImportError>| #[trigger]
            self.collected(handed, n, set, verdict, now)
    }

    /// Whether the sync is to start over, given the verdict of a downloader
    /// on the blocks that it handed on: it is where a block was bad.
    pub fn must_restart(verdict: Result<(), DownloaderImportError>) -> (r: bool)
        ensures
            r == (verdict == Err::<(), DownloaderImportError>(DownloaderImportError::Invalid)),
    {
        match verdict {
            Err(DownloaderImportError::Invalid) => true,
            _ => false,
        }
    }

    /// Drops the downloader of old blocks where it says that it has no more
    /// to do.
    pub fn retire_old_blocks(&mut self, complete: bool)
        requires
            old(self).wf(),
        ensures
            final(self).wf(),
            *final(self) == if complete {
                ChainSync { old_blocks: None, ..*old(self) }
            } else {
                *old(self)
            },
            progresses(*old(self), *final(self)),
    {
        proof {
            lemma_progress_refl(*old(self));
        }
        if complete {
            self.old_blocks = None;
        }
    }

    /// Lets a downloader hand the blocks that are complete to the chain
    /// client: see `collected`.
    pub fn collect_blocks<I: SyncIo>(&mut self, io: &mut I, block_set: BlockSet, now: Timestamp)
        requires
            old(self).wf(),
        ensures
            progresses(*old(self), *final(self)),
            old(self).collects(*final(self), block_set, now),
    {
        proof {
            lemma_progress_refl(*old(self));
        }
        match block_set {
            BlockSet::NewBlocks => {
                let out_of_order = self.state == SyncState::NewBlocks;
                let result = self.new_blocks.collect_blocks(io, out_of_order);
                let ghost g0 = *self;
                if Self::must_restart(result) {
                    self.restart(io, now);
                    proof {
                        lemma_progress_trans(*old(self), g0, *self);
                    }
                }
                proof {
                    assert(old(self).collected(g0, *self, block_set, result, now));
                }
            },
            BlockSet::OldBlocks => {
                let result = match &mut self.old_blocks {
                    Some(downloader) => downloader.collect_blocks(io, false),
                    None => Ok(()),
                };
                let ghost g0 = *self;
                if Self::must_restart(result) {
                    self.restart(io, now);
                    proof {
                        lemma_progress_trans(*old(self), g0, *self);
                    }
                } else {
                    let complete = match &self.old_blocks {
                        Some(downloader) => downloader.is_complete(),
                        None => false,
                    };
                    self.retire_old_blocks(complete);
                }
                proof {
                    assert(old(self).collected(g0, *self, block_set, result, now));
                }
            },
        }
    }

    /// Whether `n` is this synchroniser after paused work was looked at,
    /// where the chain client said `full` of its queue and the snapshot
    /// service told `status`.
    ///
    /// A paused download of blocks goes on once the queue has room.  While
    /// the snapshot service is waited for: when the restoration has ended
    /// well, the sync starts over from what was restored; when it has
    /// failed, the snapshot is noted as bad, peers with a snapshot are
    /// waited for again and what was fetched is forgotten; while it goes
    /// on, chunks are fetched again once there are some to fetch and the
    /// service has caught up.  After each of these (`mid`) the sync goes
    /// on.  In any other state nothing is done.
    pub open spec fn resumed(
        &self,
        mid: Self,
        n: Self,
        full: bool,
        status: RestorationStatus,
        now: Timestamp,
    ) -> bool {
        if self.state == SyncState::Waiting {
            if full {
                mid == *self && n == mid
            } else {
                mid == (ChainSync { state: SyncState::Blocks, ..*self }) && mid.goes_on(n, now)
            }
        } else if self.state == SyncState::SnapshotWaiting {
            match status {
                RestorationStatus::Inactive => self.restarts(mid, now) && mid.goes_on(n, now),
                RestorationStatus::Failed => self.restoration_ended(mid, true) && mid.goes_on(
                    n,
                    now,
                ),
                RestorationStatus::Ongoing { state_chunks_done, block_chunks_done } => if
                    self.snapshot.spec_total_chunks()
                    != self.snapshot.completed_chunks.items@.len() && !spec_backlog_full(
                    self.snapshot.completed_chunks.items@.len() as usize,
                    state_chunks_done,
                    block_chunks_done,
                ) {
                    mid == (ChainSync { state: SyncState::SnapshotData, ..*self }) && mid.goes_on(
                        n,
                        now,
                    )
                } else {
                    mid == *self && n == mid
                },
            }
        } else {
            mid == *self && n == mid
        }
    }

    /// Takes up work that was paused: see `resumed`.
    pub fn check_resume<I: SyncIo>(&mut self, io: &mut I, now: Timestamp)
        requires
            old(self).wf(),
        ensures
            final(self).wf(),
            old(self).outbox@.is_prefix_of(final(self).outbox@),
            crate::peer_map::same_ids(old(self).peers.entries@, final(self).peers.entries@),
            old(self).state != SyncState::Waiting && old(self).state != SyncState::SnapshotWaiting
                ==> *final(self) == *old(self),
            old(self).state == SyncState::Waiting ==> final(self).state != SyncState::WaitingPeers,
            exists|mid: Self, full: bool, status: RestorationStatus|
                #[trigger] old(self).resumed(mid, *final(self), full, status, now),
    {
        if self.state == SyncState::Waiting {
            let full = io.queue_info().is_full();
            if !full {
                self.state = SyncState::Blocks;
                let ghost mid = *self;
                self.continue_sync(io, now);
                proof {
                    assert(old(self).resumed(mid, *self, full, RestorationStatus::Inactive, now));
                }
            } else {
                proof {
                    assert(old(self).resumed(*self, *self, full, RestorationStatus::Inactive, now));
                }
            }
        } else if self.state == SyncState::SnapshotWaiting {
            let status = io.snapshot_status();
            match status {
                RestorationStatus::Inactive => {
                    self.restart(io, now);
                    let ghost mid = *self;
                    self.continue_sync(io, now);
                    proof {
                        lemma_progress_trans(*old(self), mid, *self);
                        assert(old(self).resumed(mid, *self, false, status, now));
                    }
                },
                RestorationStatus::Ongoing { state_chunks_done, block_chunks_done } => {
                    if !self.snapshot.is_complete() && !backlog_full(
                        self.snapshot.done_chunks(),
                        state_chunks_done,
                        block_chunks_done,
                    ) {
                        self.state = SyncState::SnapshotData;
                        let ghost mid = *self;
                        self.continue_sync(io, now);
                        proof {
                            assert(old(self).resumed(mid, *self, false, status, now));
                        }
                    } else {
                        proof {
                            assert(old(self).resumed(*self, *self, false, status, now));
                        }
                    }
                },
                RestorationStatus::Failed => {
                    self.end_restoration(true);
                    let ghost mid = *self;
                    self.continue_sync(io, now);
                    proof {
                        crate::chain_sync::lemma_prefix_trans(
                            old(self).outbox@,
                            mid.outbox@,
                            self.outbox@,
                        );
                        assert(old(self).resumed(mid, *self, false, status, now));
                    }
                },
            }
        } else {
            proof {
                assert(old(self).resumed(*self, *self, false, RestorationStatus::Inactive, now));
            }
        }
    }

    /// Whether `n` is this synchroniser after it was looked whether a
    /// snapshot is to be fetched: see `snapshot_considered`.
    pub open spec fn considers_snapshot(&self, n: Self, now: Timestamp) -> bool {
        &&& progresses(*self, n)
        &&& exists|
            mid: Self,
            supported: Option<(u64, u64)>,
            our_best: u64,
            best: Option<H256>,
            peers: Seq<PeerId>,
        | #[trigger] self.snapshot_considered(mid, n, supported, our_best, best, peers, now)
    }

    /// Whether `n` is this synchroniser after paused work was looked at:
    /// see `resumed`.
    pub open spec fn resumes(&self, n: Self, now: Timestamp) -> bool {
        exists|mid: Self, full: bool, status: RestorationStatus| #[trigger]
            self.resumed(mid, n, full, status, now)
    }

    /// Whether `n` is this synchroniser after the regular upkeep of the
    /// sync: it was looked whether a snapshot is to be fetched (`started`),
    /// and then whether paused work can be taken up.
    pub open spec fn kept_up(&self, started: Self, n: Self, now: Timestamp) -> bool {
        self.considers_snapshot(started, now) && started.resumes(n, now)
    }

    /// The regular upkeep of the sync: see `kept_up`.
    pub fn maintain_sync<I: SyncIo>(&mut self, io: &mut I, now: Timestamp)
        requires
            old(self).wf(),
        ensures
            final(self).wf(),
            old(self).outbox@.is_prefix_of(final(self).outbox@),
            crate::peer_map::same_ids(old(self).peers.entries@, final(self).peers.entries@),
            exists|started: Self| #[trigger] old(self).kept_up(started, *final(self), now),
    {
        self.maybe_start_snapshot_sync(io, now);
        let ghost g0 = *self;
        self.check_resume(io, now);
        proof {
            crate::chain_sync::lemma_prefix_trans(old(self).outbox@, g0.outbox@, self.outbox@);
            assert(old(self).kept_up(g0, *self, now));
        }
    }
}

} // verus!
