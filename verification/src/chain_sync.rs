//! The synchroniser: its state, what makes it well formed, and the small
//! steps that the larger ones are made of.

use vstd::prelude::*;
use crate::action::Action;
use crate::config::{SyncConfig, WarpSync};
use crate::env::{BlockDownloader, ChainInfo, SyncIo};
use crate::peer::{BlockSet, ForkConfirmation, PeerAsking, PeerInfo};
use crate::peer_map::{has_id, position, Entry, PeerMap};
use crate::primitives::{BlockNumber, H256, PeerId, Timestamp, U256};
use crate::random::RandomSource;
use crate::relations::{all_wf, evolves, kept, lemma_evolves_trans, lemma_evolves_wf, Peers};
use crate::snapshot::Snapshot;
use crate::stats::TransactionsStats;
use crate::status::SyncState;

verus! {

/// The synchroniser.
pub struct ChainSync<D: BlockDownloader> {
    pub state: SyncState,
    /// Height of the chain when syncing started.
    pub starting_block: BlockNumber,
    /// Highest block number heard of.
    pub highest_block: Option<BlockNumber>,
    /// All peers that have told their status.
    pub peers: Peers,
    /// The peers that take part in the current round.
    pub active_peers: PeerMap<()>,
    /// The downloader for blocks beyond our best block.
    pub new_blocks: D,
    /// The downloader for ancient blocks, while there are any to fetch.
    pub old_blocks: Option<D>,
    /// Number of the last block that was announced.
    pub last_sent_block_number: BlockNumber,
    pub network_id: u64,
    pub fork_block: Option<(BlockNumber, H256)>,
    pub snapshot: Snapshot,
    /// The peers that were greeted and have not told their status yet, each
    /// with the time of the greeting.
    pub handshaking_peers: PeerMap<Timestamp>,
    /// When the first peer told its status.
    pub sync_start_time: Option<Timestamp>,
    pub transactions_stats: TransactionsStats,
    pub download_old_blocks: bool,
    pub warp_sync: WarpSync,
    pub random: RandomSource,
    /// What is to be done on the network, oldest first.
    pub outbox: Vec<Action>,
}

/// The state in which a synchroniser with the given options starts on a
/// chain of the given height.
pub open spec fn initial_state(warp_sync: WarpSync, best_block: BlockNumber) -> SyncState {
    match warp_sync {
        WarpSync::Enabled => SyncState::WaitingPeers,
        WarpSync::OnlyAndAfter(block) => if block > best_block {
            SyncState::WaitingPeers
        } else {
            SyncState::Idle
        },
        WarpSync::Disabled => SyncState::Idle,
    }
}

/// Whether `n` may follow `o`: the options and the peers stay, the queue
/// only grows, every request in flight was there before or was queued
/// since, and whoever takes part in the round did so before or is
/// registered.
pub open spec fn follows<D: BlockDownloader>(o: ChainSync<D>, n: ChainSync<D>) -> bool {
    &&& n.wf()
    &&& o.outbox@.is_prefix_of(n.outbox@)
    &&& evolves(o.peers.entries@, n.peers.entries@, n.outbox@, o.outbox@.len() as int)
    &&& forall|id: PeerId|
        #[trigger] n.active_peers.has(id) ==> o.active_peers.has(id) || n.peers.has(id)
    &&& n.network_id == o.network_id
    &&& n.fork_block == o.fork_block
    &&& n.warp_sync == o.warp_sync
    &&& n.download_old_blocks == o.download_old_blocks
    &&& n.handshaking_peers == o.handshaking_peers
    &&& n.sync_start_time == o.sync_start_time
    &&& n.highest_block == o.highest_block
    &&& n.starting_block == o.starting_block
    &&& n.last_sent_block_number == o.last_sent_block_number
}

/// Whether `n` is `o` but for the heads of peers, actions that ask for
/// nothing, and the number of the block that was announced last.
pub open spec fn follows_but_heads<D: BlockDownloader>(o: ChainSync<D>, n: ChainSync<D>) -> bool {
    &&& n.wf()
    &&& o.outbox@.is_prefix_of(n.outbox@)
    &&& crate::action::no_requests(n.outbox@, o.outbox@.len() as int, n.outbox@.len() as int)
    &&& crate::peer_map::same_ids(o.peers.entries@, n.peers.entries@)
    &&& forall|i: int|
        0 <= i < o.peers.entries@.len() ==> (#[trigger] n.peers.entries@[i]).value == (PeerInfo {
            latest_hash: n.peers.entries@[i].value.latest_hash,
            ..o.peers.entries@[i].value
        })
    &&& n == (ChainSync {
        peers: n.peers,
        outbox: n.outbox,
        last_sent_block_number: n.last_sent_block_number,
        random: n.random,
        ..o
    })
}

/// Whether `n` may follow `o` while work is handed out: as `follows`, and
/// waiting for peers is not gone back to.
pub open spec fn progresses<D: BlockDownloader>(o: ChainSync<D>, n: ChainSync<D>) -> bool {
    &&& follows(o, n)
    &&& o.state != SyncState::WaitingPeers ==> n.state != SyncState::WaitingPeers
}

/// One change after another is a change.
pub proof fn lemma_follows_trans<D: BlockDownloader>(
    a: ChainSync<D>,
    b: ChainSync<D>,
    c: ChainSync<D>,
)
    requires
        follows(a, b),
        follows(b, c),
    ensures
        follows(a, c),
{
    lemma_evolves_trans(
        a.peers.entries@,
        b.peers.entries@,
        c.peers.entries@,
        b.outbox@,
        a.outbox@.len() as int,
        c.outbox@,
        b.outbox@.len() as int,
    );
    lemma_prefix_trans(a.outbox@, b.outbox@, c.outbox@);
    assert forall|id: PeerId| #[trigger] c.active_peers.has(id) implies a.active_peers.has(id)
        || c.peers.has(id) by {
        if b.active_peers.has(id) && !a.active_peers.has(id) {
            assert(b.peers.has(id));
            crate::peer_map::lemma_same_ids_has(b.peers.entries@, c.peers.entries@, id);
        }
    }
}

pub proof fn lemma_progress_refl<D: BlockDownloader>(s: ChainSync<D>)
    requires
        s.wf(),
    ensures
        progresses(s, s),
{
}

/// One step after another is a step.
pub proof fn lemma_progress_trans<D: BlockDownloader>(
    a: ChainSync<D>,
    b: ChainSync<D>,
    c: ChainSync<D>,
)
    requires
        progresses(a, b),
        progresses(b, c),
    ensures
        progresses(a, c),
{
    lemma_follows_trans(a, b, c);
}

/// A beginning of a beginning is a beginning.
pub proof fn lemma_prefix_trans<A>(x: Seq<A>, y: Seq<A>, z: Seq<A>)
    requires
        x.is_prefix_of(y),
        y.is_prefix_of(z),
    ensures
        x.is_prefix_of(z),
{
    assert(x =~= y.subrange(0, x.len() as int));
    assert(y =~= z.subrange(0, y.len() as int));
    assert forall|i: int| 0 <= i < x.len() implies x[i] == z[i] by {
        assert(x[i] == y.subrange(0, x.len() as int)[i]);
        assert(y[i] == z.subrange(0, y.len() as int)[i]);
    }
    assert(x =~= z.subrange(0, x.len() as int));
}

/// The ids of all peers, each with nothing kept for it.
pub fn all_ids(peers: &Peers) -> (r: PeerMap<()>)
    requires
        peers.wf(),
    ensures
        r.wf(),
        forall|id: PeerId| r.has(id) == peers.has(id),
{
    let mut r: PeerMap<()> = PeerMap::new();
    let mut i: usize = 0;
    while i < peers.entries.len()
        invariant
            i <= peers.entries@.len(),
            r.entries@.len() == i,
            forall|k: int| 0 <= k < i ==> (#[trigger] r.entries@[k]).id == peers.entries@[k].id,
        decreases peers.entries@.len() - i,
    {
        r.entries.push(Entry { id: peers.entries[i].id, value: () });
        i += 1;
    }
    proof {
        let a = peers.entries@;
        let b = r.entries@;
        assert forall|x: int, y: int| 0 <= x < y < b.len() implies (#[trigger] b[x]).id != (
        #[trigger] b[y]).id by {
            assert(a[x].id != a[y].id);
        }
        assert forall|id: PeerId| has_id(b, id) == has_id(a, id) by {
            if has_id(a, id) {
                let k = position(a, id);
                assert(b[k].id == id);
            }
            if has_id(b, id) {
                let k = position(b, id);
                assert(a[k].id == id);
            }
        }
    }
    r
}

impl<D: BlockDownloader> ChainSync<D> {
    pub open spec fn wf(&self) -> bool {
        &&& self.peers.wf()
        &&& all_wf(self.peers.entries@)
        &&& self.active_peers.wf()
        &&& self.handshaking_peers.wf()
        &&& self.snapshot.wf()
    }

    /// Number of the fork block; zero where none is set.
    pub open spec fn fork_number(&self) -> BlockNumber {
        match self.fork_block {
            Some((number, _)) => number,
            None => 0,
        }
    }

    /// Hash of the fork block, where one is set.
    pub open spec fn fork_hash(&self) -> Option<H256> {
        match self.fork_block {
            Some((_, hash)) => Some(hash),
            None => None,
        }
    }

    /// The record of a peer.
    pub open spec fn peer(&self, id: PeerId) -> PeerInfo {
        self.peers.value_of(id)
    }

    /// Whether the synchroniser is well formed: no peer is registered,
    /// taking part or greeted twice, and no set of hashes holds one twice.
    /// Every function keeps it so; whoever changes the fields by hand can ask.
    pub fn is_well_formed(&self) -> (r: bool)
        ensures
            r == self.wf(),
    {
        if !self.peers.is_well_formed() || !self.active_peers.is_well_formed()
            || !self.handshaking_peers.is_well_formed() || !self.snapshot.is_well_formed() {
            return false;
        }
        let mut i: usize = 0;
        while i < self.peers.entries.len()
            invariant
                i <= self.peers.entries@.len(),
                forall|k: int| 0 <= k < i ==> (#[trigger] self.peers.entries@[k]).value.wf(),
            decreases self.peers.entries@.len() - i,
        {
            if !self.peers.entries[i].value.last_sent_transactions.is_well_formed() {
                return false;
            }
            i += 1;
        }
        true
    }

    /// A synchroniser for a chain as the client describes it.
    pub fn new(config: SyncConfig, chain_info: &ChainInfo, random: RandomSource) -> (sync: Self)
        ensures
            sync.wf(),
            sync.state == initial_state(config.warp_sync, chain_info.best_block_number),
            sync.starting_block == chain_info.best_block_number,
            sync.highest_block is None,
            sync.peers.entries@.len() == 0,
            sync.active_peers.entries@.len() == 0,
            sync.handshaking_peers.entries@.len() == 0,
            sync.outbox@.len() == 0,
            sync.last_sent_block_number == 0,
            sync.network_id == config.network_id,
            sync.fork_block == config.fork_block,
            sync.download_old_blocks == config.download_old_blocks,
            sync.warp_sync == config.warp_sync,
            sync.sync_start_time is None,
            sync.snapshot.snapshot_hash is None,
            sync.transactions_stats.pending@.len() == 0,
            sync.old_blocks is Some <==> config.download_old_blocks
                && chain_info.ancient_block_hash is Some && chain_info.ancient_block_number is Some,
    {
        let best_block = chain_info.best_block_number;
        let state = match config.warp_sync {
            WarpSync::Enabled => SyncState::WaitingPeers,
            WarpSync::OnlyAndAfter(block) => if block > best_block {
                SyncState::WaitingPeers
            } else {
                SyncState::Idle
            },
            WarpSync::Disabled => SyncState::Idle,
        };
        let mut sync = ChainSync {
            state,
            starting_block: best_block,
            highest_block: None,
            peers: PeerMap::new(),
            handshaking_peers: PeerMap::new(),
            active_peers: PeerMap::new(),
            new_blocks: D::new(false, &chain_info.best_block_hash, chain_info.best_block_number),
            old_blocks: None,
            last_sent_block_number: 0,
            network_id: config.network_id,
            fork_block: config.fork_block,
            download_old_blocks: config.download_old_blocks,
            snapshot: Snapshot::new(),
            sync_start_time: None,
            transactions_stats: TransactionsStats::new(),
            warp_sync: config.warp_sync,
            random,
            outbox: Vec::new(),
        };
        sync.update_targets(chain_info);
        sync
    }

    /// Takes what is to be done on the network out of the queue.
    pub fn take_actions(&mut self) -> (r: Vec<Action>)
        requires
            old(self).wf(),
        ensures
            r@ == old(self).outbox@,
            final(self).outbox@.len() == 0,
            *final(self) == (ChainSync { outbox: final(self).outbox, ..*old(self) }),
            final(self).wf(),
    {
        let mut r: Vec<Action> = Vec::new();
        std::mem::swap(&mut r, &mut self.outbox);
        r
    }

    /// Whether `n` is this synchroniser with new downloaders for the chain
    /// that `info` tells of: none for old blocks unless they are wanted and
    /// the chain has a gap.
    pub open spec fn retargeted(&self, n: Self, info: ChainInfo) -> bool {
        &&& n == (ChainSync { new_blocks: n.new_blocks, old_blocks: n.old_blocks, ..*self })
        &&& n.old_blocks is Some <==> self.download_old_blocks && info.ancient_block_hash is Some
            && info.ancient_block_number is Some
    }

    /// Makes new downloaders after the chain was changed from outside: one
    /// from the best block on and, where old blocks are wanted and the
    /// chain has a gap, one from the last ancient block on.
    pub fn update_targets(&mut self, chain_info: &ChainInfo)
        ensures
            old(self).retargeted(*final(self), *chain_info),
    {
        self.new_blocks = D::new(false, &chain_info.best_block_hash, chain_info.best_block_number);
        self.old_blocks = None;
        if self.download_old_blocks {
            match (chain_info.ancient_block_hash, chain_info.ancient_block_number) {
                (Some(ancient_block_hash), Some(ancient_block_number)) => {
                    let mut downloader = D::with_unlimited_reorg(
                        true,
                        &ancient_block_hash,
                        ancient_block_number,
                    );
                    if let Some(hash) = chain_info.first_block_hash {
                        downloader.set_target(&hash);
                    }
                    self.old_blocks = Some(downloader);
                },
                _ => {},
            }
        }
    }

    /// Lets a peer sit out the rest of the round.
    pub fn deactivate_peer(&mut self, peer_id: PeerId)
        requires
            old(self).wf(),
        ensures
            final(self).wf(),
            !final(self).active_peers.has(peer_id),
            forall|other: PeerId|
                other != peer_id ==> final(self).active_peers.has(other) == old(
                    self,
                ).active_peers.has(other),
            *final(self) == (ChainSync { active_peers: final(self).active_peers, ..*old(self) }),
            progresses(*old(self), *final(self)),
    {
        let _ = self.active_peers.remove(peer_id);
    }

    /// Stops handing out work until the block queue has room again.
    pub fn pause_sync(&mut self)
        ensures
            *final(self) == (ChainSync { state: SyncState::Waiting, ..*old(self) }),
    {
        self.state = SyncState::Waiting;
    }

    /// Notes that a peer has answered.  The peer is no longer expired, it
    /// carries no request and belongs to no downloader's round; the answer
    /// is whether the request that it carried was of the expected kind.
    pub fn reset_peer_asking(&mut self, peer_id: PeerId, asking: PeerAsking) -> (r: bool)
        requires
            old(self).wf(),
        ensures
            final(self).wf(),
            r == (old(self).peers.has(peer_id) && old(self).peer(peer_id).asking == asking),
            !old(self).peers.has(peer_id) ==> *final(self) == *old(self),
            old(self).peers.has(peer_id) ==> *final(self) == (ChainSync {
                peers: final(self).peers,
                ..*old(self)
            }) && final(self).peers.entries@ == old(self).peers.entries@.update(
                position(old(self).peers.entries@, peer_id),
                Entry {
                    id: peer_id,
                    value: PeerInfo {
                        expired: false,
                        block_set: None,
                        asking: PeerAsking::Nothing,
                        ..old(self).peer(peer_id)
                    },
                },
            ),
            progresses(*old(self), *final(self)),
            crate::laws::unique_requests(old(self).peers.entries@) ==> crate::laws::unique_requests(
                final(self).peers.entries@,
            ),
    {
        match self.peers.index_of(peer_id) {
            Some(i) => {
                let peer = &mut self.peers.entries[i].value;
                peer.expired = false;
                peer.block_set = None;
                let matched = peer.asking == asking;
                peer.asking = PeerAsking::Nothing;
                proof {
                    let a = old(self).peers.entries@;
                    let b = self.peers.entries@;
                    assert(b =~= a.update(
                        i as int,
                        Entry {
                            id: peer_id,
                            value: PeerInfo {
                                expired: false,
                                block_set: None,
                                asking: PeerAsking::Nothing,
                                ..a[i as int].value
                            },
                        },
                    ));
                    crate::peer_map::lemma_same_ids_distinct(a, b);
                    crate::relations::lemma_evolves_update(
                        a,
                        b,
                        i as int,
                        self.outbox@,
                        self.outbox@.len() as int,
                    );
                    lemma_evolves_wf(a, b, self.outbox@, self.outbox@.len() as int);
                    if crate::laws::unique_requests(a) {
                        assert forall|k: int| 0 <= k < a.len() implies crate::laws::carries_no_more(
                            (#[trigger] a[k]).value,
                            b[k].value,
                        ) by {
                            if k != i {
                                assert(b[k] == a[k]);
                            }
                        }
                        crate::laws::lemma_release_keeps_requests_unique(a, b);
                    }
                }
                matched
            },
            None => false,
        }
    }

    /// The chunk of the snapshot that the given peer is being asked for.
    pub open spec fn chunk_asked_of(&self, peer_id: PeerId) -> Option<H256> {
        if self.peers.has(peer_id) && self.peer(peer_id).asking == PeerAsking::SnapshotData {
            self.peer(peer_id).asking_snapshot_data
        } else {
            None
        }
    }

    /// Whether the snapshot downloader `n` is this synchroniser's after the
    /// chunk that the given peer was asked for is no longer being fetched
    /// from it: nothing else of it has changed.
    pub open spec fn chunk_released(&self, n: Snapshot, peer_id: PeerId) -> bool {
        &&& n.wf()
        &&& n == (Snapshot { downloading_chunks: n.downloading_chunks, ..self.snapshot })
        &&& forall|h: H256|
            n.downloading_chunks.has(h) == (self.snapshot.downloading_chunks.has(h) && Some(h)
                != self.chunk_asked_of(peer_id))
    }

    /// Tells the downloaders and the snapshot downloader that what a peer
    /// was asked for is no longer being fetched from it.
    pub fn clear_peer_download(&mut self, peer_id: PeerId)
        requires
            old(self).wf(),
        ensures
            final(self).wf(),
            *final(self) == (ChainSync {
                new_blocks: final(self).new_blocks,
                old_blocks: final(self).old_blocks,
                snapshot: final(self).snapshot,
                ..*old(self)
            }),
            final(self).old_blocks is Some == old(self).old_blocks is Some,
            !old(self).peers.has(peer_id) || old(self).peer(peer_id).asking == PeerAsking::Nothing
                ==> *final(self) == *old(self),
            old(self).chunk_released(final(self).snapshot, peer_id),
            final(self).snapshot.pending_state_chunks == old(self).snapshot.pending_state_chunks,
            final(self).snapshot.pending_block_chunks == old(self).snapshot.pending_block_chunks,
            final(self).snapshot.completed_chunks == old(self).snapshot.completed_chunks,
            final(self).snapshot.snapshot_hash == old(self).snapshot.snapshot_hash,
            final(self).snapshot.bad_hashes == old(self).snapshot.bad_hashes,
            forall|h: H256|
                final(self).snapshot.downloading_chunks.has(h) == (old(
                    self,
                ).snapshot.downloading_chunks.has(h) && !(old(self).peers.has(peer_id) && old(
                    self,
                ).peer(peer_id).asking == PeerAsking::SnapshotData && old(self).peer(
                    peer_id,
                ).asking_snapshot_data == Some(h))),
            progresses(*old(self), *final(self)),
    {
        match self.peers.index_of(peer_id) {
            Some(i) => {
                let peer = &self.peers.entries[i].value;
                match peer.asking {
                    PeerAsking::BlockHeaders => {
                        if let Some(hash) = peer.asking_hash {
                            self.new_blocks.clear_header_download(&hash);
                            match &mut self.old_blocks {
                                Some(old) => {
                                    old.clear_header_download(&hash);
                                },
                                None => {},
                            }
                        }
                    },
                    PeerAsking::BlockBodies => {
                        self.new_blocks.clear_body_download(&peer.asking_blocks);
                        match &mut self.old_blocks {
                            Some(old) => {
                                old.clear_body_download(&peer.asking_blocks);
                            },
                            None => {},
                        }
                    },
                    PeerAsking::BlockReceipts => {
                        self.new_blocks.clear_receipt_download(&peer.asking_blocks);
                        match &mut self.old_blocks {
                            Some(old) => {
                                old.clear_receipt_download(&peer.asking_blocks);
                            },
                            None => {},
                        }
                    },
                    PeerAsking::SnapshotData => {
                        if let Some(hash) = peer.asking_snapshot_data {
                            self.snapshot.clear_chunk_download(&hash);
                        }
                    },
                    _ => {},
                }
            },
            None => {},
        }
    }

    /// Whether `n` is this synchroniser after a new round was started: the
    /// synchroniser is in step and every peer takes part again; what the
    /// downloader of new blocks had asked for is abandoned, so that answers
    /// that are still to come will be dropped; a peer whose difficulty is not
    /// known is taken to be as far as the chain is.
    pub open spec fn round_reset(&self, n: Self) -> bool {
        &&& progresses(*self, n)
        &&& n.state == SyncState::Idle
        &&& n.outbox == self.outbox
        &&& n.snapshot == self.snapshot
        &&& n.old_blocks == self.old_blocks
        &&& n.highest_block == self.highest_block
        &&& n.starting_block == self.starting_block
        &&& forall|id: PeerId| n.active_peers.has(id) == n.peers.has(id)
        &&& crate::laws::unique_requests(self.peers.entries@) ==> crate::laws::unique_requests(
            n.peers.entries@,
        )
        &&& forall|i: int|
            0 <= i < n.peers.entries@.len() ==> {
                let o = (#[trigger] self.peers.entries@[i]).value;
                let p = n.peers.entries@[i].value;
                if o.block_set == Some(BlockSet::OldBlocks) {
                    p == o
                } else {
                    &&& p.asking == o.asking
                    &&& p.ask_time == o.ask_time
                    &&& p.block_set == o.block_set
                    &&& p.asking_snapshot_data == o.asking_snapshot_data
                    &&& p.asking_blocks@.len() == 0
                    &&& p.asking_hash is None
                    &&& p.difficulty is Some
                    &&& o.difficulty is Some ==> p.difficulty == o.difficulty
                    &&& p.expired == (o.expired || (o.asking != PeerAsking::Nothing
                        && o.confirmation != ForkConfirmation::Unconfirmed))
                }
            }
        &&& exists|pending: U256| #[trigger] self.difficulties_given(n, pending)
    }

    /// Whether in `n` every peer whose request was abandoned and whose
    /// total difficulty was not known has the one given, and every other
    /// peer the one that it had.
    pub open spec fn difficulties_given(&self, n: Self, pending: U256) -> bool {
        forall|i: int|
            0 <= i < n.peers.entries@.len() ==> (#[trigger] n.peers.entries@[i]).value.difficulty
                == if self.peers.entries@[i].value.block_set != Some(BlockSet::OldBlocks)
                && self.peers.entries@[i].value.difficulty is None {
                Some(pending)
            } else {
                self.peers.entries@[i].value.difficulty
            }
    }

    /// Starts a new round: the downloader for new blocks forgets what it
    /// has, every request that is not for old blocks is abandoned, and all
    /// peers take part again.  A peer whose total difficulty is not known
    /// is taken to be as far as the chain is with the blocks that wait in
    /// the queue, as the chain client tells it.
    pub fn reset<I: SyncIo>(&mut self, io: &mut I)
        requires
            old(self).wf(),
        ensures
            old(self).round_reset(*final(self)),
    {
        self.new_blocks.reset();
        let ghost forgotten = *self;
        let chain_info = io.chain_info();
        self.start_round(chain_info.pending_total_difficulty);
        proof {
            assert(forgotten == (ChainSync { new_blocks: forgotten.new_blocks, ..*old(self) }));
            assert(forgotten.difficulties_given(*self, chain_info.pending_total_difficulty));
            assert(old(self).difficulties_given(*self, chain_info.pending_total_difficulty));
            assert(follows(forgotten, *self));
            assert(follows(*old(self), *self));
        }
    }

    /// Starts a new round, where the chain with the blocks that wait in the
    /// queue has the total difficulty `pending`: see `round_reset` and
    /// `difficulties_given`.  The downloaders are left as they are.
    pub fn start_round(&mut self, pending: U256)
        requires
            old(self).wf(),
        ensures
            old(self).round_reset(*final(self)),
            old(self).difficulties_given(*final(self), pending),
            final(self).new_blocks == old(self).new_blocks,
    {
        let mut i: usize = 0;
        while i < self.peers.entries.len()
            invariant
                i <= self.peers.entries@.len(),
                self.peers.entries@.len() == old(self).peers.entries@.len(),
                forall|k: int|
                    0 <= k < self.peers.entries@.len() ==> (#[trigger] self.peers.entries@[k]).id
                        == old(self).peers.entries@[k].id,
                forall|k: int|
                    i <= k < self.peers.entries@.len() ==> (#[trigger] self.peers.entries@[k])
                        == old(self).peers.entries@[k],
                forall|k: int|
                    0 <= k < i ==> {
                        let o = (#[trigger] old(self).peers.entries@[k]).value;
                        let n = self.peers.entries@[k].value;
                        if o.block_set == Some(BlockSet::OldBlocks) {
                            n == o
                        } else {
                            &&& kept(o, n)
                            &&& n.asking == o.asking
                            &&& n.ask_time == o.ask_time
                            &&& n.block_set == o.block_set
                            &&& n.asking_snapshot_data == o.asking_snapshot_data
                            &&& n.asking_blocks@.len() == 0
                            &&& n.asking_hash is None
                            &&& n.difficulty == if o.difficulty is None {
                                Some(pending)
                            } else {
                                o.difficulty
                            }
                            &&& n.expired == (o.expired || (o.asking != PeerAsking::Nothing
                                && o.confirmation != ForkConfirmation::Unconfirmed))
                        }
                    },
                self.new_blocks == old(self).new_blocks,
                self.outbox == old(self).outbox,
                self.snapshot == old(self).snapshot,
                self.old_blocks == old(self).old_blocks,
                self.active_peers == old(self).active_peers,
                self.handshaking_peers == old(self).handshaking_peers,
                self.state == old(self).state,
                self.network_id == old(self).network_id,
                self.fork_block == old(self).fork_block,
                self.warp_sync == old(self).warp_sync,
                self.download_old_blocks == old(self).download_old_blocks,
                self.sync_start_time == old(self).sync_start_time,
                self.highest_block == old(self).highest_block,
                self.starting_block == old(self).starting_block,
                self.last_sent_block_number == old(self).last_sent_block_number,
            decreases self.peers.entries@.len() - i,
        {
            if self.peers.entries[i].value.block_set != Some(BlockSet::OldBlocks) {
                let p = &mut self.peers.entries[i].value;
                p.reset_asking();
                if p.difficulty.is_none() {
                    p.difficulty = Some(pending);
                }
            }
            i += 1;
        }
        self.state = SyncState::Idle;
        proof {
            let a = old(self).peers.entries@;
            let b = self.peers.entries@;
            assert forall|k: int| 0 <= k < a.len() implies crate::relations::peer_evolves(
                (#[trigger] a[k]).value,
                b[k].value,
                a[k].id,
                self.outbox@,
                self.outbox@.len() as int,
            ) by {}
            assert(crate::peer_map::same_ids(a, b));
            crate::peer_map::lemma_same_ids_distinct(a, b);
            lemma_evolves_wf(a, b, self.outbox@, self.outbox@.len() as int);
            if crate::laws::unique_requests(a) {
                assert forall|k: int| 0 <= k < a.len() implies crate::laws::carries_no_more(
                    (#[trigger] a[k]).value,
                    b[k].value,
                ) by {
                    crate::laws::lemma_answered_carries_no_more(a[k].value, b[k].value);
                }
                crate::laws::lemma_release_keeps_requests_unique(a, b);
            }
        }
        self.active_peers = all_ids(&self.peers);
        proof {
            assert(old(self).difficulties_given(*self, pending));
        }
    }

    /// Whether `n` is this synchroniser after the round was ended: the
    /// synchroniser is in step, every peer takes part in the next round,
    /// and the requests in flight are dealt with as `reset` says.
    pub open spec fn round_ended(&self, n: Self) -> bool {
        self.round_reset(n)
    }

    /// Ends the round: as `reset`.
    pub fn complete_sync<I: SyncIo>(&mut self, io: &mut I)
        requires
            old(self).wf(),
        ensures
            progresses(*old(self), *final(self)),
            final(self).state == SyncState::Idle,
            final(self).outbox == old(self).outbox,
            final(self).snapshot == old(self).snapshot,
            forall|id: PeerId| final(self).active_peers.has(id) == final(self).peers.has(id),
            old(self).round_ended(*final(self)),
    {
        self.reset(io);
        self.state = SyncState::Idle;
    }
}

} // verus!
