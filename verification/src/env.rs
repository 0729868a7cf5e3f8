//! What the synchroniser is given by its surroundings: the chain client, the
//! snapshot service, the network's knowledge of its sessions, and the block
//! downloaders.  The traits promise nothing about what comes back, so all
//! that is proved of the synchroniser holds whatever they answer.

use vstd::prelude::*;
use crate::primitives::{BlockNumber, H256, PeerId, U256};

verus! {

/// The chain as the client sees it.
#[derive(Clone, Copy, Debug, PartialEq, Eq, Structural)]
pub struct ChainInfo {
    pub total_difficulty: U256,
    /// Total difficulty with the blocks still in the import queue.
    pub pending_total_difficulty: U256,
    pub genesis_hash: H256,
    pub best_block_hash: H256,
    pub best_block_number: BlockNumber,
    /// Last block of the ancient part of the chain, where there is a gap.
    pub ancient_block_hash: Option<H256>,
    pub ancient_block_number: Option<BlockNumber>,
    /// First block after the gap.
    pub first_block_hash: Option<H256>,
    pub first_block_number: Option<BlockNumber>,
}

/// What the chain client knows of a block.
#[derive(Clone, Copy, Debug, PartialEq, Eq, Structural)]
pub enum BlockStatus {
    Queued,
    Bad,
    InChain,
    Pending,
    Unknown,
}

/// Fill of the block import queue.
#[derive(Clone, Copy, Debug, PartialEq, Eq, Structural)]
pub struct BlockQueueInfo {
    pub unverified_queue_size: usize,
    pub verified_queue_size: usize,
    pub verifying_queue_size: usize,
    pub max_queue_size: usize,
    pub max_mem_use: usize,
    pub mem_used: usize,
}

impl BlockQueueInfo {
    pub open spec fn spec_total_queue_size(&self) -> int {
        self.unverified_queue_size + self.verified_queue_size + self.verifying_queue_size
    }

    pub open spec fn spec_is_full(&self) -> bool {
        self.spec_total_queue_size() > self.max_queue_size || self.mem_used > self.max_mem_use
    }

    pub open spec fn spec_is_empty(&self) -> bool {
        self.spec_total_queue_size() == 0
    }

    /// Whether the queue takes no more blocks.
    pub fn is_full(&self) -> (r: bool)
        ensures
            r == self.spec_is_full(),
    {
        let total: u128 = self.unverified_queue_size as u128 + self.verified_queue_size as u128
            + self.verifying_queue_size as u128;
        total > self.max_queue_size as u128 || self.mem_used > self.max_mem_use
    }

    /// Whether the queue holds no block at all.
    pub fn is_empty(&self) -> (r: bool)
        ensures
            r == self.spec_is_empty(),
    {
        self.unverified_queue_size == 0 && self.verified_queue_size == 0
            && self.verifying_queue_size == 0
    }
}

/// How the chain client took a block handed to it.
#[derive(Clone, Copy, Debug, PartialEq, Eq, Structural)]
pub enum ImportResult {
    Queued,
    AlreadyInChain,
    AlreadyQueued,
    UnknownParent,
    Bad,
}

/// Progress of the snapshot service.
#[derive(Clone, Copy, Debug, PartialEq, Eq, Structural)]
pub enum RestorationStatus {
    Inactive,
    Ongoing { state_chunks_done: u32, block_chunks_done: u32 },
    Failed,
}

/// Descriptor of a snapshot.
#[derive(Clone, Debug)]
pub struct ManifestData {
    pub version: u64,
    pub state_hashes: Vec<H256>,
    pub block_hashes: Vec<H256>,
    pub state_root: H256,
    pub block_number: BlockNumber,
    pub block_hash: H256,
}

/// What a downloader wants asked of a peer.
#[derive(Clone, Debug)]
pub enum BlockRequest {
    Headers { start: H256, count: u64, skip: u64 },
    Bodies { hashes: Vec<H256> },
    Receipts { hashes: Vec<H256> },
}

/// What a downloader wants done after it took headers.
#[derive(Clone, Copy, Debug, PartialEq, Eq, Structural)]
pub enum DownloadAction {
    /// Nothing more to do.
    Proceed,
    /// The round starts over: requests in flight for it are abandoned.
    Reset,
}

/// Why a downloader did not take what a peer sent.
#[derive(Clone, Copy, Debug, PartialEq, Eq, Structural)]
pub enum DownloaderImportError {
    /// The data is wrong: the peer is no longer talked to.
    Invalid,
    /// The data is of no use: the peer sits out this round.
    Useless,
}

/// A transaction that waits to be announced.
#[derive(Clone, Debug)]
pub struct PendingTransaction {
    pub hash: H256,
    /// Whether its gas price is zero.
    pub service: bool,
    /// Its encoding.
    pub raw: Vec<u8>,
}

/// The chain client, the snapshot service and what the network knows of its
/// sessions.
pub trait SyncIo {
    fn chain_info(&self) -> ChainInfo;

    fn block_status(&self, hash: &H256) -> BlockStatus;

    fn queue_info(&self) -> BlockQueueInfo;

    fn import_block(&mut self, block: Vec<u8>) -> ImportResult;

    fn queue_transactions(&mut self, transactions: Vec<Vec<u8>>, peer: PeerId);

    fn queue_consensus_message(&mut self, message: Vec<u8>);

    /// The hashes of the blocks on the way from one block to another.
    fn tree_route(&self, from: &H256, to: &H256) -> Option<Vec<H256>>;

    fn find_uncles(&self, hash: &H256) -> Option<Vec<H256>>;

    fn block_number(&self, hash: &H256) -> Option<BlockNumber>;

    /// Hash of the parent of the best block.
    fn best_block_parent(&self) -> H256;

    /// The encoding of a block.
    fn block(&self, hash: &H256) -> Option<Vec<u8>>;

    fn block_total_difficulty(&self, hash: &H256) -> Option<U256>;

    /// The encoding of the header of a block.
    fn block_header(&self, hash: &H256) -> Option<Vec<u8>>;

    /// The encoding of the header of the block with the given number on the
    /// best chain.
    fn block_header_by_number(&self, number: BlockNumber) -> Option<Vec<u8>>;

    /// Hash of the block with the given number on the best chain.
    fn block_hash(&self, number: BlockNumber) -> Option<H256>;

    /// The encoding of the body of a block.
    fn block_body(&self, hash: &H256) -> Option<Vec<u8>>;

    /// The encoding of the receipts of a block.
    fn block_receipts(&self, hash: &H256) -> Option<Vec<u8>>;

    /// The state node with the given hash.
    fn state_data(&self, hash: &H256) -> Option<Vec<u8>>;

    fn ready_transactions(&self) -> Vec<PendingTransaction>;

    /// Lowest and highest manifest version that the service restores.
    fn supported_versions(&self) -> Option<(u64, u64)>;

    fn snapshot_status(&self) -> RestorationStatus;

    fn begin_restore(&mut self, manifest: ManifestData);

    fn abort_restore(&mut self);

    fn restore_block_chunk(&mut self, hash: H256, chunk: Vec<u8>);

    fn restore_state_chunk(&mut self, hash: H256, chunk: Vec<u8>);

    /// The manifest of the snapshot that this node offers.
    fn snapshot_manifest(&self) -> Option<ManifestData>;

    /// A chunk of the snapshot that this node offers.
    fn snapshot_chunk(&self, hash: &H256) -> Option<Vec<u8>>;

    /// Version of the snapshot-capable sub-protocol agreed with a peer; zero
    /// where it was not agreed.
    fn warp_protocol_version(&self, peer: PeerId) -> u8;

    /// Whether the session that the current packet came from is gone.
    fn is_expired(&self) -> bool;

    /// The client name that a peer gave, as bytes.
    fn peer_client(&self, peer: PeerId) -> Vec<u8>;

    /// The header of the fork block that is kept for the given number.
    fn fork_header(&self, number: BlockNumber) -> Option<Vec<u8>>;

    fn keep_fork_header(&mut self, number: BlockNumber, header: Vec<u8>);

    fn import_private_transaction(&mut self, data: Vec<u8>);

    fn import_signed_private_transaction(&mut self, data: Vec<u8>);
}

/// A block downloader: it accumulates headers, bodies and receipts and
/// hands complete blocks to the chain client.
pub trait BlockDownloader: Sized {
    /// A downloader that starts from the given block.
    fn new(sync_receipts: bool, start_hash: &H256, start_number: BlockNumber) -> Self;

    /// A downloader for ancient blocks, which never gives up on a reorg.
    fn with_unlimited_reorg(
        sync_receipts: bool,
        start_hash: &H256,
        start_number: BlockNumber,
    ) -> Self;

    fn set_target(&mut self, hash: &H256);

    fn reset(&mut self);

    /// Starts over with the given hashes as the heads to download.
    fn reset_to(&mut self, hashes: Vec<H256>);

    fn mark_as_known(&mut self, hash: &H256, number: BlockNumber);

    fn is_downloading(&self, hash: &H256) -> bool;

    fn is_complete(&self) -> bool;

    fn last_imported_block_number(&self) -> BlockNumber;

    fn heap_size(&self) -> usize;

    fn request_blocks<I: SyncIo>(&mut self, io: &mut I, num_active_peers: usize) -> Option<
        BlockRequest,
    >;

    fn import_headers<I: SyncIo>(
        &mut self,
        io: &mut I,
        data: &[u8],
        expected_hash: Option<H256>,
    ) -> Result<DownloadAction, DownloaderImportError>;

    fn import_bodies<I: SyncIo>(&mut self, io: &mut I, data: &[u8]) -> Result<
        (),
        DownloaderImportError,
    >;

    fn import_receipts<I: SyncIo>(&mut self, io: &mut I, data: &[u8]) -> Result<
        (),
        DownloaderImportError,
    >;

    fn collect_blocks<I: SyncIo>(&mut self, io: &mut I, allow_out_of_order: bool) -> Result<
        (),
        DownloaderImportError,
    >;

    fn clear_header_download(&mut self, hash: &H256);

    fn clear_body_download(&mut self, hashes: &Vec<H256>);

    fn clear_receipt_download(&mut self, hashes: &Vec<H256>);
}

} // verus!
