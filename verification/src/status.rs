//! The state of the synchroniser as a whole and the figures it reports.

use vstd::prelude::*;
use crate::env::BlockQueueInfo;
use crate::primitives::BlockNumber;

verus! {

/// What the synchroniser is doing.
#[derive(Clone, Copy, Debug, PartialEq, Eq, Structural)]
pub enum SyncState {
    /// Collecting enough peers to start syncing.
    WaitingPeers,
    /// Waiting for the snapshot manifest.
    SnapshotManifest,
    /// Downloading snapshot chunks.
    SnapshotData,
    /// Waiting for the snapshot service to work off what it was given.
    SnapshotWaiting,
    /// Downloading blocks.
    Blocks,
    /// In step with the network; waiting for news.
    Idle,
    /// Paused until the block queue has room again.
    Waiting,
    /// Downloading blocks that a peer announced by hash.
    NewBlocks,
}

/// Status and statistics of the synchroniser.
#[derive(Clone, Copy, Debug)]
pub struct SyncStatus {
    pub state: SyncState,
    /// The highest protocol version spoken.
    pub protocol_version: u8,
    pub network_id: u64,
    /// Height of the chain when syncing started.
    pub start_block_number: BlockNumber,
    pub last_imported_block_number: Option<BlockNumber>,
    /// Highest block number heard of.
    pub highest_block_number: Option<BlockNumber>,
    pub blocks_total: BlockNumber,
    pub blocks_received: BlockNumber,
    pub num_peers: usize,
    pub num_active_peers: usize,
    pub mem_used: usize,
    pub num_snapshot_chunks: usize,
    pub snapshot_chunks_done: usize,
    pub last_imported_old_block_number: Option<BlockNumber>,
}

impl SyncStatus {
    pub open spec fn spec_is_snapshot_syncing(&self) -> bool {
        self.state == SyncState::SnapshotManifest || self.state == SyncState::SnapshotData
            || self.state == SyncState::SnapshotWaiting
    }

    /// Whether a state belongs to a major sync.
    pub open spec fn is_syncing_state(state: SyncState) -> bool {
        state != SyncState::Idle && state != SyncState::NewBlocks
    }

    pub open spec fn spec_is_syncing(&self, queue_info: BlockQueueInfo) -> bool {
        queue_info.unverified_queue_size + queue_info.verified_queue_size > 3
            || Self::is_syncing_state(self.state)
    }

    /// Whether a snapshot is being fetched or restored.
    pub fn is_snapshot_syncing(&self) -> (r: bool)
        ensures
            r == self.spec_is_snapshot_syncing(),
    {
        self.state == SyncState::SnapshotManifest || self.state == SyncState::SnapshotData
            || self.state == SyncState::SnapshotWaiting
    }

    /// The number of peers to show as the limit: `max_peers` once more than
    /// `min_peers` are connected, `min_peers` until then.
    pub fn current_max_peers(&self, min_peers: u32, max_peers: u32) -> (r: u32)
        ensures
            r == if self.num_peers > min_peers { max_peers } else { min_peers },
    {
        if self.num_peers > min_peers as usize {
            max_peers
        } else {
            min_peers
        }
    }

    /// Whether a major sync is going on: the state says so, or more than
    /// three blocks wait in the queue.
    pub fn is_syncing(&self, queue_info: BlockQueueInfo) -> (r: bool)
        ensures
            r == self.spec_is_syncing(queue_info),
    {
        let is_syncing_state = match self.state {
            SyncState::Idle | SyncState::NewBlocks => false,
            _ => true,
        };
        let waiting: u128 = queue_info.unverified_queue_size as u128
            + queue_info.verified_queue_size as u128;
        waiting > 3 || is_syncing_state
    }
}

} // verus!
