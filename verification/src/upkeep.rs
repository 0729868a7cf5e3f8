//! Keeping the registry in order: peers that leave, requests that take too
//! long, and the figures that the synchroniser reports.

use vstd::prelude::*;
use crate::action::Action;
use crate::chain_sync::{progresses, ChainSync};
use crate::env::{BlockDownloader, SyncIo};
use crate::peer::{PeerAsking, PeerInfo};
use crate::peer_map::{lemma_same_ids_has, position, Entry};
use crate::primitives::{BlockNumber, H256, PeerId, Timestamp, U256};
use crate::primitives::ETH_PROTOCOL_VERSION_63;
use crate::relations::{evolves, renewed};
use crate::status::{SyncState, SyncStatus};

verus! {

/// Whether the given action stands in the queue from the given place on.
pub open spec fn queued_since(acts: Seq<Action>, from: int, action: Action) -> bool {
    exists|k: int| 0 <= k && from <= k < acts.len() && #[trigger] acts[k] == action
}

pub proof fn lemma_queued_extends(a: Seq<Action>, b: Seq<Action>, from: int, action: Action)
    requires
        a.is_prefix_of(b),
        queued_since(a, from, action),
    ensures
        queued_since(b, from, action),
{
    let k = choose|k: int| 0 <= k && from <= k < a.len() && #[trigger] a[k] == action;
    assert(a =~= b.subrange(0, a.len() as int));
    assert(b.subrange(0, a.len() as int)[k] == b[k]);
    assert(b[k] == action);
}

/// What a peer shows of itself to the outside.
#[derive(Clone, Copy, Debug, PartialEq, Eq, Structural)]
pub struct PeerInfoDigest {
    /// The protocol version that the peer speaks.
    pub version: u32,
    pub difficulty: Option<U256>,
    /// The peer's best block.
    pub head: H256,
}

/// The number of records that meet `wanted`.
pub open spec fn count_where(s: Seq<Entry<PeerInfo>>, wanted: spec_fn(PeerInfo) -> bool) -> nat
    decreases s.len(),
{
    if s.len() == 0 {
        0
    } else {
        count_where(s.drop_last(), wanted) + if wanted(s.last().value) {
            1nat
        } else {
            0nat
        }
    }
}

/// The number of peers that count.
pub open spec fn allowed_count(s: Seq<Entry<PeerInfo>>) -> nat {
    count_where(s, |p: PeerInfo| p.spec_is_allowed())
}

/// The number of peers that count and carry a request.
pub open spec fn asking_count(s: Seq<Entry<PeerInfo>>) -> nat {
    count_where(s, |p: PeerInfo| p.spec_is_allowed() && p.asking != PeerAsking::Nothing)
}

/// The figures on the blocks that have come, out of those known of.
pub open spec fn spec_blocks_received(last_imported: BlockNumber, starting: BlockNumber)
    -> BlockNumber {
    if last_imported > starting {
        (last_imported - starting) as BlockNumber
    } else {
        0
    }
}

pub open spec fn spec_blocks_total(highest: Option<BlockNumber>, starting: BlockNumber)
    -> BlockNumber {
    match highest {
        Some(x) => if x > starting {
            (x - starting) as BlockNumber
        } else {
            0
        },
        None => 0,
    }
}

pub open spec fn spec_highest_shown(highest: Option<BlockNumber>, last_imported: BlockNumber)
    -> Option<BlockNumber> {
    match highest {
        Some(n) => Some(if n >= last_imported { n } else { last_imported }),
        None => None,
    }
}

impl<D: BlockDownloader> ChainSync<D> {
    /// The status, given what the downloaders tell: the number of the last
    /// block that each has imported, and the memory that they use.
    pub open spec fn status_with(
        &self,
        last_imported: BlockNumber,
        last_imported_old: Option<BlockNumber>,
        mem_used: usize,
    ) -> SyncStatus {
        SyncStatus {
            state: self.state,
            protocol_version: ETH_PROTOCOL_VERSION_63,
            network_id: self.network_id,
            start_block_number: self.starting_block,
            last_imported_block_number: Some(last_imported),
            last_imported_old_block_number: last_imported_old,
            highest_block_number: spec_highest_shown(self.highest_block, last_imported),
            blocks_received: spec_blocks_received(last_imported, self.starting_block),
            blocks_total: spec_blocks_total(self.highest_block, self.starting_block),
            num_peers: allowed_count(self.peers.entries@) as usize,
            num_active_peers: asking_count(self.peers.entries@) as usize,
            num_snapshot_chunks: if self.snapshot.spec_total_chunks() <= usize::MAX {
                self.snapshot.spec_total_chunks() as usize
            } else {
                usize::MAX
            },
            snapshot_chunks_done: self.snapshot.completed_chunks.items@.len() as usize,
            mem_used,
        }
    }

    /// Puts the status together from the state and from what the
    /// downloaders tell.
    pub fn build_status(
        &self,
        last_imported: BlockNumber,
        last_imported_old: Option<BlockNumber>,
        mem_used: usize,
    ) -> (r: SyncStatus)
        ensures
            r == self.status_with(last_imported, last_imported_old, mem_used),
    {
        let ghost allowed = |p: PeerInfo| p.spec_is_allowed();
        let ghost asking = |p: PeerInfo| p.spec_is_allowed() && p.asking != PeerAsking::Nothing;
        let mut num_peers: usize = 0;
        let mut num_active_peers: usize = 0;
        let mut i: usize = 0;
        while i < self.peers.entries.len()
            invariant
                i <= self.peers.entries@.len(),
                allowed == |p: PeerInfo| p.spec_is_allowed(),
                asking == |p: PeerInfo| p.spec_is_allowed() && p.asking != PeerAsking::Nothing,
                num_peers == count_where(self.peers.entries@.subrange(0, i as int), allowed),
                num_active_peers == count_where(self.peers.entries@.subrange(0, i as int), asking),
                num_peers <= i,
                num_active_peers <= i,
            decreases self.peers.entries@.len() - i,
        {
            proof {
                assert(self.peers.entries@.subrange(0, i + 1).drop_last()
                    =~= self.peers.entries@.subrange(0, i as int));
            }
            let p = &self.peers.entries[i].value;
            if p.is_allowed() {
                num_peers += 1;
                if p.asking != PeerAsking::Nothing {
                    num_active_peers += 1;
                }
            }
            i += 1;
        }
        proof {
            assert(self.peers.entries@.subrange(0, self.peers.entries@.len() as int)
                =~= self.peers.entries@);
        }
        SyncStatus {
            state: self.state,
            protocol_version: ETH_PROTOCOL_VERSION_63,
            network_id: self.network_id,
            start_block_number: self.starting_block,
            last_imported_block_number: Some(last_imported),
            last_imported_old_block_number: last_imported_old,
            highest_block_number: match self.highest_block {
                Some(n) => Some(if n >= last_imported { n } else { last_imported }),
                None => None,
            },
            blocks_received: if last_imported > self.starting_block {
                last_imported - self.starting_block
            } else {
                0
            },
            blocks_total: match self.highest_block {
                Some(x) => if x > self.starting_block {
                    x - self.starting_block
                } else {
                    0
                },
                None => 0,
            },
            num_peers,
            num_active_peers,
            num_snapshot_chunks: self.snapshot.total_chunks(),
            snapshot_chunks_done: self.snapshot.done_chunks(),
            mem_used,
        }
    }

    /// The status of the sync.  The numbers of the last imported blocks and
    /// the memory in use are what the downloaders tell.
    pub fn status(&self) -> (r: SyncStatus)
        ensures
            exists|last: BlockNumber, last_old: Option<BlockNumber>, mem: usize|
                r == #[trigger] self.status_with(last, last_old, mem) && (last_old is Some
                    <==> self.old_blocks is Some),
    {
        let last_imported = self.new_blocks.last_imported_block_number();
        let last_old = match &self.old_blocks {
            Some(d) => Some(d.last_imported_block_number()),
            None => None,
        };
        let used = self.new_blocks.heap_size();
        let used_old = match &self.old_blocks {
            Some(d) => d.heap_size(),
            None => 0,
        };
        let mem_used = if used > usize::MAX - used_old {
            usize::MAX
        } else {
            used + used_old
        };
        let r = self.build_status(last_imported, last_old, mem_used);
        proof {
            assert(r == self.status_with(last_imported, last_old, mem_used));
        }
        r
    }

    /// What a peer shows of itself, where it is registered.
    pub fn peer_info(&self, peer_id: PeerId) -> (r: Option<PeerInfoDigest>)
        requires
            self.wf(),
        ensures
            r is Some <==> self.peers.has(peer_id),
            r matches Some(d) ==> d == (PeerInfoDigest {
                version: self.peer(peer_id).protocol_version as u32,
                difficulty: self.peer(peer_id).difficulty,
                head: self.peer(peer_id).latest_hash,
            }),
    {
        match self.peers.get(peer_id) {
            Some(p) => Some(
                PeerInfoDigest {
                    version: p.protocol_version as u32,
                    difficulty: p.difficulty,
                    head: p.latest_hash,
                },
            ),
            None => None,
        }
    }

    /// Whether `n` is this synchroniser after it was noted that a peer has
    /// left: it is greeted no longer, and where it was registered, what it
    /// was asked for is free to be asked of others, its record is dropped
    /// and it takes part no longer (`gone`), and the sync goes on.
    pub open spec fn peer_left(&self, gone: Self, n: Self, peer: PeerId, now: Timestamp) -> bool {
        &&& gone == (ChainSync {
            peers: gone.peers,
            active_peers: gone.active_peers,
            handshaking_peers: gone.handshaking_peers,
            new_blocks: gone.new_blocks,
            old_blocks: gone.old_blocks,
            snapshot: gone.snapshot,
            ..*self
        })
        &&& gone.wf()
        &&& !gone.handshaking_peers.has(peer)
        &&& if self.peers.has(peer) {
            &&& gone.peers.entries@ == self.peers.entries@.remove(
                position(self.peers.entries@, peer),
            )
            &&& !gone.active_peers.has(peer)
            &&& gone.goes_on(n, now)
        } else {
            &&& gone.peers == self.peers
            &&& gone.active_peers == self.active_peers
            &&& gone.new_blocks == self.new_blocks
            &&& gone.old_blocks == self.old_blocks
            &&& gone.snapshot == self.snapshot
            &&& n == gone
        }
    }

    /// Takes note that a peer has left: see `peer_left`.
    pub fn on_peer_aborting<I: SyncIo>(&mut self, io: &mut I, peer: PeerId, now: Timestamp)
        requires
            old(self).wf(),
        ensures
            final(self).wf(),
            old(self).outbox@.is_prefix_of(final(self).outbox@),
            !final(self).peers.has(peer),
            !final(self).handshaking_peers.has(peer),
            forall|other: PeerId|
                other != peer ==> final(self).peers.has(other) == old(self).peers.has(other),
            forall|other: PeerId|
                other != peer ==> final(self).handshaking_peers.has(other) == old(
                    self,
                ).handshaking_peers.has(other),
            forall|other: PeerId|
                other != peer && old(self).handshaking_peers.has(other)
                    ==> final(self).handshaking_peers.value_of(other)
                        == old(self).handshaking_peers.value_of(other),
            !old(self).peers.has(peer) ==> *final(self) == (ChainSync {
                handshaking_peers: final(self).handshaking_peers,
                ..*old(self)
            }),
            old(self).peers.has(peer) ==> evolves(
                old(self).peers.entries@.remove(position(old(self).peers.entries@, peer)),
                final(self).peers.entries@,
                final(self).outbox@,
                old(self).outbox@.len() as int,
            ),
            old(self).state != SyncState::WaitingPeers ==> final(self).state
                != SyncState::WaitingPeers,
            exists|gone: Self| #[trigger] old(self).peer_left(gone, *final(self), peer, now),
            old(self).peers.has(peer) ==> !final(self).active_peers.has(peer),
            forall|id: PeerId|
                #[trigger] final(self).active_peers.has(id) ==> old(self).active_peers.has(id)
                    || (old(self).peers.has(id) && id != peer),
    {
        let _ = self.handshaking_peers.remove(peer);
        if self.peers.contains_key(peer) {
            self.clear_peer_download(peer);
            let _ = self.peers.remove(peer);
            let _ = self.active_peers.remove(peer);
            proof {
                let a = old(self).peers.entries@;
                let b = self.peers.entries@;
                let at = position(a, peer);
                assert forall|i: int| 0 <= i < b.len() implies (#[trigger] b[i]).value.wf() by {
                    let i0 = if i < at { i } else { i + 1 };
                    assert(b[i] == a[i0]);
                    assert(a[i0].value.wf());
                }
            }
            let ghost g0 = *self;
            self.continue_sync(io, now);
            proof {
                assert forall|other: PeerId| other != peer implies self.peers.has(other) == old(
                    self,
                ).peers.has(other) by {
                    lemma_same_ids_has(g0.peers.entries@, self.peers.entries@, other);
                }
                lemma_same_ids_has(g0.peers.entries@, self.peers.entries@, peer);
                assert(old(self).peer_left(g0, *self, peer, now));
            }
        } else {
            proof {
                assert(old(self).peer_left(*self, *self, peer, now));
            }
        }
    }

    /// Whether `n` is this synchroniser after it started over at `now`
    /// (`mid`) and then dropped all peers.
    pub open spec fn aborted(&self, mid: Self, n: Self, now: Timestamp) -> bool {
        &&& self.starts_over(mid, now)
        &&& n == (ChainSync { peers: n.peers, ..mid })
        &&& n.peers.entries@.len() == 0
    }

    /// Starts over as `reset_and_continue` does, and then drops all peers.
    pub fn abort<I: SyncIo>(&mut self, io: &mut I, now: Timestamp)
        requires
            old(self).wf(),
        ensures
            final(self).wf(),
            final(self).peers.entries@.len() == 0,
            old(self).outbox@.is_prefix_of(final(self).outbox@),
            exists|mid: Self| #[trigger] old(self).aborted(mid, *final(self), now),
    {
        self.reset_and_continue(io, now);
        let ghost mid = *self;
        self.peers.clear();
        proof {
            assert(old(self).aborted(mid, *self, now));
        }
    }
}

} // verus!
