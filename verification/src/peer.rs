//! What is known of one peer.

use vstd::prelude::*;
use crate::hash_list::HashList;
use crate::primitives::{BlockNumber, H256, Timestamp, U256};
use crate::primitives::{
    BODIES_TIMEOUT,
    FORK_HEADER_TIMEOUT,
    HEADERS_TIMEOUT,
    RECEIPTS_TIMEOUT,
    SNAPSHOT_DATA_TIMEOUT,
    SNAPSHOT_MANIFEST_TIMEOUT,
};

verus! {

/// The kind of data that was asked of a peer and not yet answered.
#[derive(Clone, Copy, Debug, PartialEq, Eq, Structural)]
pub enum PeerAsking {
    Nothing,
    ForkHeader,
    BlockHeaders,
    BlockBodies,
    BlockReceipts,
    SnapshotManifest,
    SnapshotData,
}

/// The downloader that a request belongs to.
#[derive(Clone, Copy, Debug, PartialEq, Eq, Structural)]
pub enum BlockSet {
    /// Blocks beyond our best block.
    NewBlocks,
    /// Missing ancient blocks.
    OldBlocks,
}

/// Whether a peer has shown the header of the fork block.
#[derive(Clone, Copy, Debug, PartialEq, Eq, Structural)]
pub enum ForkConfirmation {
    /// Not yet answered.
    Unconfirmed,
    /// The peer's chain is too short to tell.
    TooShort,
    Confirmed,
}

/// The time after which a request of the given kind is given up.
pub open spec fn spec_timeout_of(asking: PeerAsking) -> Option<Timestamp> {
    match asking {
        PeerAsking::Nothing => None,
        PeerAsking::ForkHeader => Some(FORK_HEADER_TIMEOUT),
        PeerAsking::BlockHeaders => Some(HEADERS_TIMEOUT),
        PeerAsking::BlockBodies => Some(BODIES_TIMEOUT),
        PeerAsking::BlockReceipts => Some(RECEIPTS_TIMEOUT),
        PeerAsking::SnapshotManifest => Some(SNAPSHOT_MANIFEST_TIMEOUT),
        PeerAsking::SnapshotData => Some(SNAPSHOT_DATA_TIMEOUT),
    }
}

/// The time after which a request of the given kind is given up.
pub fn timeout_of(asking: PeerAsking) -> (r: Option<Timestamp>)
    ensures
        r == spec_timeout_of(asking),
{
    match asking {
        PeerAsking::Nothing => None,
        PeerAsking::ForkHeader => Some(FORK_HEADER_TIMEOUT),
        PeerAsking::BlockHeaders => Some(HEADERS_TIMEOUT),
        PeerAsking::BlockBodies => Some(BODIES_TIMEOUT),
        PeerAsking::BlockReceipts => Some(RECEIPTS_TIMEOUT),
        PeerAsking::SnapshotManifest => Some(SNAPSHOT_MANIFEST_TIMEOUT),
        PeerAsking::SnapshotData => Some(SNAPSHOT_DATA_TIMEOUT),
    }
}

/// The record of one peer.
#[derive(Clone, Debug)]
pub struct PeerInfo {
    pub protocol_version: u8,
    /// Genesis hash of the peer's chain.
    pub genesis: H256,
    pub network_id: u64,
    /// The peer's best block.
    pub latest_hash: H256,
    /// The peer's total difficulty, where it is known.
    pub difficulty: Option<U256>,
    pub asking: PeerAsking,
    /// The blocks whose bodies or receipts were asked for.
    pub asking_blocks: Vec<H256>,
    /// The block from which headers were asked for.
    pub asking_hash: Option<H256>,
    /// The snapshot chunk that was asked for.
    pub asking_snapshot_data: Option<H256>,
    /// When the last request went out.
    pub ask_time: Timestamp,
    /// The transactions announced to the peer of late.
    pub last_sent_transactions: HashList,
    /// Whether the answer to the request in flight is to be dropped.
    pub expired: bool,
    pub confirmation: ForkConfirmation,
    pub snapshot_hash: Option<H256>,
    pub snapshot_number: Option<BlockNumber>,
    /// The downloader that the request in flight belongs to.
    pub block_set: Option<BlockSet>,
}

impl PeerInfo {
    pub open spec fn wf(&self) -> bool {
        self.last_sent_transactions.wf()
    }

    pub open spec fn spec_can_sync(&self) -> bool {
        self.confirmation == ForkConfirmation::Confirmed && !self.expired
    }

    pub open spec fn spec_is_allowed(&self) -> bool {
        self.confirmation != ForkConfirmation::Unconfirmed && !self.expired
    }

    /// Whether the request in flight is given up at `now`.
    pub open spec fn spec_timed_out(&self, now: Timestamp) -> bool {
        match spec_timeout_of(self.asking) {
            Some(limit) => now > self.ask_time && now - self.ask_time > limit,
            None => false,
        }
    }

    /// Whether requests may be sent to the peer.
    pub fn can_sync(&self) -> (r: bool)
        ensures
            r == self.spec_can_sync(),
    {
        self.confirmation == ForkConfirmation::Confirmed && !self.expired
    }

    /// Whether the peer counts for propagation and statistics.
    pub fn is_allowed(&self) -> (r: bool)
        ensures
            r == self.spec_is_allowed(),
    {
        self.confirmation != ForkConfirmation::Unconfirmed && !self.expired
    }

    /// Forgets what was asked for.  A request that is still in flight is
    /// marked as expired; a peer that is already expired stays so.
    pub fn reset_asking(&mut self)
        ensures
            final(self).asking_blocks@.len() == 0,
            final(self).asking_hash is None,
            final(self).expired == (old(self).expired || (old(self).asking != PeerAsking::Nothing
                && old(self).confirmation != ForkConfirmation::Unconfirmed)),
            *final(self) == (PeerInfo {
                asking_blocks: final(self).asking_blocks,
                asking_hash: None,
                expired: final(self).expired,
                ..*old(self)
            }),
    {
        self.asking_blocks.clear();
        self.asking_hash = None;
        if self.asking != PeerAsking::Nothing && self.is_allowed() {
            self.expired = true;
        }
    }

    /// Whether the request in flight is given up at `now`.
    pub fn timed_out(&self, now: Timestamp) -> (r: bool)
        ensures
            r == self.spec_timed_out(now),
    {
        match timeout_of(self.asking) {
            Some(limit) => now > self.ask_time && now - self.ask_time > limit,
            None => false,
        }
    }
}

} // verus!
