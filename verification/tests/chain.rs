use chain_sync::action::Action;
use chain_sync::announcements::{gather_one, Announced, Gathering};
use chain_sync::chain_sync::ChainSync;
use chain_sync::codec::{item_at, item_count};
use chain_sync::config::{SyncConfig, WarpSync};
use chain_sync::env::{
    BlockDownloader, BlockQueueInfo, BlockRequest, BlockStatus, ChainInfo, DownloadAction,
    DownloaderImportError, ImportResult, ManifestData, PendingTransaction, RestorationStatus,
    SyncIo,
};
use chain_sync::hash_list::HashList;
use chain_sync::hashing::keccak;
use chain_sync::manifest::encode_manifest;
use chain_sync::peer::{BlockSet, ForkConfirmation, PeerAsking, PeerInfo};
use chain_sync::primitives::{BlockNumber, PeerId, H256, U256};
use chain_sync::random;
use chain_sync::status::SyncState;
use chain_sync::transactions::announce_to;
use chain_sync::supplier::{
    return_block_bodies, return_block_headers, return_node_data, return_receipts,
    return_snapshot_data, return_snapshot_manifest,
};

// ---------------------------------------------------------------------
// A chain client, snapshot service and network that answer from memory.
// ---------------------------------------------------------------------

struct TestBlock {
    hash: H256,
    parent: H256,
    number: BlockNumber,
    header: Vec<u8>,
    bytes: Vec<u8>,
    total_difficulty: U256,
}

struct TestIo {
    blocks: Vec<TestBlock>,
    queue: BlockQueueInfo,
    transactions: Vec<PendingTransaction>,
    queued_transactions: Vec<Vec<u8>>,
    consensus_messages: Vec<Vec<u8>>,
    private_transactions: usize,
    import_result: ImportResult,
    imported: Vec<Vec<u8>>,
    bad: Vec<H256>,
    clients: Vec<(PeerId, Vec<u8>)>,
    warp: Vec<(PeerId, u8)>,
    expired: bool,
    versions: Option<(u64, u64)>,
    restoration: RestorationStatus,
    manifest: Option<ManifestData>,
    begun: usize,
    aborted: usize,
    block_chunks: Vec<H256>,
    state_chunks: Vec<H256>,
    fork_headers: Vec<(BlockNumber, Vec<u8>)>,
    receipts: Vec<u8>,
    chunks: Vec<Vec<u8>>,
}

fn eth_hash(h: &H256) -> ethereum_types::H256 {
    ethereum_types::H256(h.to_bytes())
}

fn header_bytes(number: u64, parent: &H256) -> Vec<u8> {
    let mut s = rlp::RlpStream::new_list(13);
    s.append(&eth_hash(parent));
    s.append(&ethereum_types::H256::zero());
    s.append(&vec![0u8; 20]);
    s.append(&ethereum_types::H256::zero());
    s.append(&ethereum_types::H256::zero());
    s.append(&ethereum_types::H256::zero());
    s.append(&vec![0u8; 256]);
    s.append(&ethereum_types::U256::from(number * 100));
    s.append(&number);
    s.append(&ethereum_types::U256::zero());
    s.append(&ethereum_types::U256::zero());
    s.append(&(number * 10));
    s.append(&Vec::<u8>::new());
    s.out()
}

fn get_dummy_block(order: u32, parent_hash: H256) -> Vec<u8> {
    let header = header_bytes(order as u64, &parent_hash);
    let mut rlp = rlp::RlpStream::new_list(3);
    rlp.append_raw(&header, 1);
    rlp.append_raw(&[0xc0u8], 1);
    rlp.append_raw(&[0xc0u8], 1);
    rlp.out()
}

// An announcement of a block: the block and its total difficulty.
fn get_dummy_blocks(order: u32, parent_hash: H256) -> Vec<u8> {
    let mut rlp = rlp::RlpStream::new_list(2);
    rlp.append_raw(&get_dummy_block(order, parent_hash), 1);
    let difficulty = ethereum_types::U256::from(100 * order);
    rlp.append(&difficulty);
    rlp.out()
}

// The block in a list of one item, and the difficulty after that list.
fn block_with_difficulty_outside(order: u32, parent_hash: H256) -> Vec<u8> {
    let mut rlp = rlp::RlpStream::new_list(1);
    rlp.append_raw(&get_dummy_block(order, parent_hash), 1);
    let difficulty = ethereum_types::U256::from(100 * order);
    rlp.append(&difficulty);
    rlp.out()
}

fn get_dummy_hashes() -> Vec<u8> {
    let mut rlp = rlp::RlpStream::new_list(5);
    for _ in 0..5 {
        let mut hash_d_rlp = rlp::RlpStream::new_list(2);
        let hash = ethereum_types::H256::zero();
        let diff = ethereum_types::U256::from(1u64);
        hash_d_rlp.append(&hash);
        hash_d_rlp.append(&diff);
        rlp.append_raw(&hash_d_rlp.out(), 1);
    }
    rlp.out()
}

fn transaction(seed: u8, service: bool) -> PendingTransaction {
    let mut s = rlp::RlpStream::new_list(3);
    s.append(&(seed as u64 + 1));
    s.append(&(if service { 0u64 } else { 20_000_000_000u64 }));
    s.append(&vec![seed; 40]);
    let raw = s.out();
    PendingTransaction { hash: keccak(&raw), service, raw }
}

impl TestIo {
    fn new() -> TestIo {
        let mut io = TestIo {
            blocks: Vec::new(),
            queue: BlockQueueInfo {
                unverified_queue_size: 0,
                verified_queue_size: 0,
                verifying_queue_size: 0,
                max_queue_size: 1000,
                max_mem_use: 1000,
                mem_used: 500,
            },
            transactions: Vec::new(),
            queued_transactions: Vec::new(),
            consensus_messages: Vec::new(),
            private_transactions: 0,
            import_result: ImportResult::Queued,
            imported: Vec::new(),
            bad: Vec::new(),
            clients: Vec::new(),
            warp: Vec::new(),
            expired: false,
            versions: None,
            restoration: RestorationStatus::Inactive,
            manifest: None,
            begun: 0,
            aborted: 0,
            block_chunks: Vec::new(),
            state_chunks: Vec::new(),
            fork_headers: Vec::new(),
            receipts: vec![0xc0],
            chunks: Vec::new(),
        };
        // The genesis block.
        io.add_blocks(1);
        io
    }

    fn add_blocks(&mut self, count: usize) {
        for _ in 0..count {
            let number = self.blocks.len() as u64;
            let parent = match self.blocks.last() {
                Some(b) => b.hash,
                None => H256::zero(),
            };
            let header = header_bytes(number, &parent);
            let bytes = get_dummy_block(number as u32, parent);
            let mut difficulty = 0u64;
            for n in 0..=number {
                difficulty += n * 100;
            }
            self.blocks.push(TestBlock {
                hash: keccak(&header),
                parent,
                number,
                header,
                bytes,
                total_difficulty: U256::from_u64(difficulty),
            });
        }
    }

    fn block_hash_delta_minus(&self, delta: usize) -> H256 {
        self.blocks[self.blocks.len() - delta].hash
    }

    fn best(&self) -> &TestBlock {
        self.blocks.last().unwrap()
    }

    fn find(&self, hash: &H256) -> Option<&TestBlock> {
        self.blocks.iter().find(|b| b.hash == *hash)
    }

    fn insert_transaction_to_queue(&mut self) -> H256 {
        let tx = transaction(self.transactions.len() as u8, false);
        let hash = tx.hash;
        self.transactions.push(tx);
        hash
    }

    fn insert_transaction_with_gas_price_to_queue(&mut self, zero: bool) -> H256 {
        let tx = transaction(self.transactions.len() as u8, zero);
        let hash = tx.hash;
        self.transactions.push(tx);
        hash
    }
}

impl SyncIo for TestIo {
    fn chain_info(&self) -> ChainInfo {
        let best = self.best();
        ChainInfo {
            total_difficulty: best.total_difficulty,
            pending_total_difficulty: best.total_difficulty,
            genesis_hash: self.blocks[0].hash,
            best_block_hash: best.hash,
            best_block_number: best.number,
            ancient_block_hash: None,
            ancient_block_number: None,
            first_block_hash: None,
            first_block_number: None,
        }
    }

    fn block_status(&self, hash: &H256) -> BlockStatus {
        if self.bad.contains(hash) {
            BlockStatus::Bad
        } else if self.find(hash).is_some() {
            BlockStatus::InChain
        } else {
            BlockStatus::Unknown
        }
    }

    fn queue_info(&self) -> BlockQueueInfo {
        self.queue
    }

    fn import_block(&mut self, block: Vec<u8>) -> ImportResult {
        self.imported.push(block);
        self.import_result
    }

    fn queue_transactions(&mut self, transactions: Vec<Vec<u8>>, _peer: PeerId) {
        self.queued_transactions.extend(transactions);
    }

    fn queue_consensus_message(&mut self, message: Vec<u8>) {
        self.consensus_messages.push(message);
    }

    fn tree_route(&self, from: &H256, to: &H256) -> Option<Vec<H256>> {
        let mut adding = false;
        let mut blocks = Vec::new();
        for b in &self.blocks {
            if b.hash == *to {
                if adding {
                    blocks.push(b.hash);
                }
                adding = false;
                break;
            }
            if b.hash == *from {
                adding = true;
            }
            if adding {
                blocks.push(b.hash);
            }
        }
        Some(if adding { Vec::new() } else { blocks })
    }

    fn find_uncles(&self, _hash: &H256) -> Option<Vec<H256>> {
        None
    }

    fn block_number(&self, hash: &H256) -> Option<BlockNumber> {
        self.find(hash).map(|b| b.number)
    }

    fn best_block_parent(&self) -> H256 {
        self.best().parent
    }

    fn block(&self, hash: &H256) -> Option<Vec<u8>> {
        self.find(hash).map(|b| b.bytes.clone())
    }

    fn block_total_difficulty(&self, hash: &H256) -> Option<U256> {
        self.find(hash).map(|b| b.total_difficulty)
    }

    fn block_header(&self, hash: &H256) -> Option<Vec<u8>> {
        self.find(hash).map(|b| b.header.clone())
    }

    fn block_header_by_number(&self, number: BlockNumber) -> Option<Vec<u8>> {
        self.blocks.get(number as usize).map(|b| b.header.clone())
    }

    fn block_hash(&self, number: BlockNumber) -> Option<H256> {
        self.blocks.get(number as usize).map(|b| b.hash)
    }

    fn block_body(&self, hash: &H256) -> Option<Vec<u8>> {
        self.find(hash).map(|_| vec![0xc2, 0xc0, 0xc0])
    }

    fn block_receipts(&self, hash: &H256) -> Option<Vec<u8>> {
        self.find(hash).map(|_| self.receipts.clone())
    }

    fn state_data(&self, hash: &H256) -> Option<Vec<u8>> {
        self.find(hash).map(|b| vec![b.number as u8; 3])
    }

    fn ready_transactions(&self) -> Vec<PendingTransaction> {
        self.transactions.clone()
    }

    fn supported_versions(&self) -> Option<(u64, u64)> {
        self.versions
    }

    fn snapshot_status(&self) -> RestorationStatus {
        self.restoration
    }

    fn begin_restore(&mut self, _manifest: ManifestData) {
        self.begun += 1;
        self.restoration = RestorationStatus::Ongoing { state_chunks_done: 0, block_chunks_done: 0 };
    }

    fn abort_restore(&mut self) {
        self.aborted += 1;
    }

    fn restore_block_chunk(&mut self, hash: H256, _chunk: Vec<u8>) {
        self.block_chunks.push(hash);
    }

    fn restore_state_chunk(&mut self, hash: H256, _chunk: Vec<u8>) {
        self.state_chunks.push(hash);
    }

    fn snapshot_manifest(&self) -> Option<ManifestData> {
        self.manifest.clone()
    }

    fn snapshot_chunk(&self, hash: &H256) -> Option<Vec<u8>> {
        self.chunks.iter().find(|c| keccak(c) == *hash).cloned()
    }

    fn warp_protocol_version(&self, peer: PeerId) -> u8 {
        self.warp.iter().find(|(p, _)| *p == peer).map(|(_, v)| *v).unwrap_or(0)
    }

    fn is_expired(&self) -> bool {
        self.expired
    }

    fn peer_client(&self, peer: PeerId) -> Vec<u8> {
        self.clients.iter().find(|(p, _)| *p == peer).map(|(_, c)| c.clone()).unwrap_or_default()
    }

    fn fork_header(&self, number: BlockNumber) -> Option<Vec<u8>> {
        self.fork_headers.iter().find(|(n, _)| *n == number).map(|(_, h)| h.clone())
    }

    fn keep_fork_header(&mut self, number: BlockNumber, header: Vec<u8>) {
        self.fork_headers.push((number, header));
    }

    fn import_private_transaction(&mut self, _data: Vec<u8>) {
        self.private_transactions += 1;
    }

    fn import_signed_private_transaction(&mut self, _data: Vec<u8>) {
        self.private_transactions += 1;
    }
}

// ---------------------------------------------------------------------
// A downloader that follows a script.
// ---------------------------------------------------------------------

struct TestDownloader {
    ancient: bool,
    last_imported: BlockNumber,
    requests: Vec<BlockRequest>,
    headers_result: Result<DownloadAction, DownloaderImportError>,
    parts_result: Result<(), DownloaderImportError>,
    collect_result: Result<(), DownloaderImportError>,
    imported_headers: usize,
    imported_bodies: usize,
    imported_receipts: usize,
    collected: usize,
    resets: usize,
    heads: Vec<H256>,
    known: Vec<(H256, BlockNumber)>,
    cleared: usize,
    target: Option<H256>,
    complete: bool,
}

impl TestDownloader {
    fn make(ancient: bool, number: BlockNumber) -> TestDownloader {
        TestDownloader {
            ancient,
            last_imported: number,
            requests: Vec::new(),
            headers_result: Ok(DownloadAction::Proceed),
            parts_result: Ok(()),
            collect_result: Ok(()),
            imported_headers: 0,
            imported_bodies: 0,
            imported_receipts: 0,
            collected: 0,
            resets: 0,
            heads: Vec::new(),
            known: Vec::new(),
            cleared: 0,
            target: None,
            complete: false,
        }
    }
}

impl BlockDownloader for TestDownloader {
    fn new(_sync_receipts: bool, _start_hash: &H256, start_number: BlockNumber) -> Self {
        TestDownloader::make(false, start_number)
    }

    fn with_unlimited_reorg(
        _sync_receipts: bool,
        _start_hash: &H256,
        start_number: BlockNumber,
    ) -> Self {
        TestDownloader::make(true, start_number)
    }

    fn set_target(&mut self, hash: &H256) {
        self.target = Some(*hash);
    }

    fn reset(&mut self) {
        self.resets += 1;
    }

    fn reset_to(&mut self, hashes: Vec<H256>) {
        self.heads = hashes;
    }

    fn mark_as_known(&mut self, hash: &H256, number: BlockNumber) {
        self.known.push((*hash, number));
    }

    fn is_downloading(&self, _hash: &H256) -> bool {
        false
    }

    fn is_complete(&self) -> bool {
        self.complete
    }

    fn last_imported_block_number(&self) -> BlockNumber {
        self.last_imported
    }

    fn heap_size(&self) -> usize {
        64
    }

    fn request_blocks<I: SyncIo>(
        &mut self,
        _io: &mut I,
        _num_active_peers: usize,
    ) -> Option<BlockRequest> {
        if self.requests.is_empty() {
            None
        } else {
            Some(self.requests.remove(0))
        }
    }

    fn import_headers<I: SyncIo>(
        &mut self,
        _io: &mut I,
        _data: &[u8],
        _expected_hash: Option<H256>,
    ) -> Result<DownloadAction, DownloaderImportError> {
        self.imported_headers += 1;
        self.headers_result
    }

    fn import_bodies<I: SyncIo>(
        &mut self,
        _io: &mut I,
        _data: &[u8],
    ) -> Result<(), DownloaderImportError> {
        self.imported_bodies += 1;
        self.parts_result
    }

    fn import_receipts<I: SyncIo>(
        &mut self,
        _io: &mut I,
        _data: &[u8],
    ) -> Result<(), DownloaderImportError> {
        self.imported_receipts += 1;
        self.parts_result
    }

    fn collect_blocks<I: SyncIo>(
        &mut self,
        _io: &mut I,
        _allow_out_of_order: bool,
    ) -> Result<(), DownloaderImportError> {
        self.collected += 1;
        self.collect_result
    }

    fn clear_header_download(&mut self, _hash: &H256) {
        self.cleared += 1;
    }

    fn clear_body_download(&mut self, _hashes: &Vec<H256>) {
        self.cleared += 1;
    }

    fn clear_receipt_download(&mut self, _hashes: &Vec<H256>) {
        self.cleared += 1;
    }
}

type Sync = ChainSync<TestDownloader>;

fn config() -> SyncConfig {
    SyncConfig::default()
}

fn new_sync(config: SyncConfig, io: &TestIo) -> Sync {
    ChainSync::new(config, &io.chain_info(), random::new())
}

fn dummy_peer(protocol_version: u8, latest_hash: H256) -> PeerInfo {
    PeerInfo {
        protocol_version,
        genesis: H256::zero(),
        network_id: 0,
        latest_hash,
        difficulty: None,
        asking: PeerAsking::Nothing,
        asking_blocks: Vec::new(),
        asking_hash: None,
        ask_time: 0,
        last_sent_transactions: HashList::new(),
        expired: false,
        confirmation: ForkConfirmation::Confirmed,
        snapshot_number: None,
        snapshot_hash: None,
        asking_snapshot_data: None,
        block_set: None,
    }
}

fn insert_dummy_peer(sync: &mut Sync, peer_id: PeerId, peer_latest_hash: H256) {
    sync.peers.insert(peer_id, dummy_peer(0, peer_latest_hash));
}

fn dummy_sync_with_peer(peer_latest_hash: H256, io: &TestIo) -> Sync {
    let mut sync = new_sync(config(), io);
    insert_dummy_peer(&mut sync, 0, peer_latest_hash);
    sync
}

struct Packet {
    recipient: PeerId,
    packet_id: u8,
    data: Vec<u8>,
}

fn packets(sync: &Sync) -> Vec<Packet> {
    let mut out = Vec::new();
    for action in &sync.outbox {
        if let Action::Send { peer, packet_id, data } = action {
            out.push(Packet { recipient: *peer, packet_id: *packet_id, data: data.clone() });
        }
    }
    out
}

fn none() -> Vec<H256> {
    Vec::new()
}

// ---------------------------------------------------------------------
// Spreading the news of blocks.
// ---------------------------------------------------------------------

#[test]
fn finds_lagging_peers() {
    let mut client = TestIo::new();
    client.add_blocks(100);
    let sync = dummy_sync_with_peer(client.block_hash_delta_minus(10), &client);
    let chain_info = client.chain_info();

    let lagging_peers = sync.get_lagging_peers(&chain_info);

    assert_eq!(1, lagging_peers.len());
}

#[test]
fn a_peer_at_our_best_block_is_not_lagging() {
    let mut client = TestIo::new();
    client.add_blocks(100);
    let mut sync = dummy_sync_with_peer(client.block_hash_delta_minus(1), &client);
    insert_dummy_peer(&mut sync, 7, client.block_hash_delta_minus(3));
    let lagging_peers = sync.get_lagging_peers(&client.chain_info());
    assert_eq!(vec![7], lagging_peers);
}

#[test]
fn calculates_tree_for_lagging_peer() {
    let mut client = TestIo::new();
    client.add_blocks(15);

    let start = client.block_hash_delta_minus(4);
    let end = client.block_hash_delta_minus(2);

    // wrong way end -> start, should be None
    let rlp = Sync::create_new_hashes_rlp(&client, &end, &start);
    assert!(rlp.is_none());

    let rlp = Sync::create_new_hashes_rlp(&client, &start, &end).unwrap();
    // size of three rlp encoded hash-difficulty
    assert_eq!(107, rlp.len());
}

#[test]
fn sends_new_hashes_to_lagging_peer() {
    let mut client = TestIo::new();
    client.add_blocks(100);
    let mut sync = dummy_sync_with_peer(client.block_hash_delta_minus(5), &client);
    let chain_info = client.chain_info();

    let peers = sync.get_lagging_peers(&chain_info);
    let peer_count = sync.propagate_new_hashes(&chain_info, &mut client, &peers);

    let sent = packets(&sync);
    // 1 message should be send
    assert_eq!(1, sent.len());
    assert_eq!(1, sync.outbox.len());
    // 1 peer should be updated
    assert_eq!(1, peer_count);
    // NEW_BLOCK_HASHES_PACKET
    assert_eq!(0x01, sent[0].packet_id);
    assert_eq!(0, sent[0].recipient);
    // The head of the peer is our best block now.
    assert_eq!(chain_info.best_block_hash, sync.peers.get(0).unwrap().latest_hash);
}

#[test]
fn sends_latest_block_to_lagging_peer() {
    let mut client = TestIo::new();
    client.add_blocks(100);
    let mut sync = dummy_sync_with_peer(client.block_hash_delta_minus(5), &client);
    let chain_info = client.chain_info();
    let peers = sync.get_lagging_peers(&chain_info);
    let peer_count = sync.propagate_blocks(&chain_info, &mut client, &none(), &peers);

    let sent = packets(&sync);
    // 1 message should be send
    assert_eq!(1, sent.len());
    // 1 peer should be updated
    assert_eq!(1, peer_count);
    // NEW_BLOCK_PACKET
    assert_eq!(0x07, sent[0].packet_id);
}

#[test]
fn sends_sealed_block() {
    let mut client = TestIo::new();
    client.add_blocks(100);
    let hash = client.block_hash(99).unwrap();
    let mut sync = dummy_sync_with_peer(client.block_hash_delta_minus(5), &client);
    let chain_info = client.chain_info();
    let peers = sync.get_lagging_peers(&chain_info);
    let peer_count = sync.propagate_blocks(&chain_info, &mut client, &vec![hash], &peers);

    let sent = packets(&sync);
    // 1 message should be send
    assert_eq!(1, sent.len());
    assert_eq!(1, sync.outbox.len());
    // 1 peer should be updated
    assert_eq!(1, peer_count);
    // NEW_BLOCK_PACKET
    assert_eq!(0x07, sent[0].packet_id);
}

#[test]
fn sends_proposed_block() {
    let mut client = TestIo::new();
    client.add_blocks(2);
    let block = client.best().bytes.clone();
    let mut sync = new_sync(config(), &client);
    // Messaging protocol
    sync.peers.insert(0, dummy_peer(2, client.block_hash_delta_minus(1)));
    sync.propagate_proposed_blocks(&mut client, &vec![block]);

    let sent = packets(&sync);
    // 1 message should be sent
    assert_eq!(1, sent.len());
    // NEW_BLOCK_PACKET
    assert_eq!(0x07, sent[0].packet_id);
}

#[test]
fn proposed_blocks_go_only_to_peers_that_take_consensus_messages() {
    let mut client = TestIo::new();
    client.add_blocks(2);
    let block = client.best().bytes.clone();
    let mut sync = new_sync(config(), &client);
    sync.peers.insert(0, dummy_peer(1, client.block_hash_delta_minus(1)));
    sync.peers.insert(1, dummy_peer(3, client.block_hash_delta_minus(1)));
    sync.propagate_proposed_blocks(&mut client, &vec![block.clone(), block]);
    let sent = packets(&sync);
    assert_eq!(2, sent.len());
    assert!(sent.iter().all(|p| p.recipient == 1 && p.packet_id == 0x07));
}

#[test]
fn news_is_not_spread_far_from_the_block_announced_last() {
    let mut client = TestIo::new();
    client.add_blocks(100);
    let mut sync = dummy_sync_with_peer(client.block_hash_delta_minus(5), &client);
    // The best block is a hundred blocks beyond the one announced last.
    sync.propagate_latest_blocks(&mut client, &none());
    assert_eq!(0, sync.outbox.len());
    assert_eq!(100, sync.last_sent_block_number);
    // Now it is in reach: the hashes, and the block to the peers picked.
    client.add_blocks(1);
    sync.propagate_latest_blocks(&mut client, &none());
    let sent = packets(&sync);
    assert_eq!(2, sent.len());
    assert_eq!(0x01, sent[0].packet_id);
    assert_eq!(0x07, sent[1].packet_id);
    assert_eq!(101, sync.last_sent_block_number);
}

#[test]
fn sealed_blocks_are_sent_before_the_hashes() {
    let mut client = TestIo::new();
    client.add_blocks(10);
    let mut sync = dummy_sync_with_peer(client.block_hash_delta_minus(5), &client);
    sync.last_sent_block_number = 9;
    let sealed = vec![client.block_hash_delta_minus(1)];
    sync.propagate_latest_blocks(&mut client, &sealed);
    let sent = packets(&sync);
    assert_eq!(2, sent.len());
    assert_eq!(0x07, sent[0].packet_id);
    assert_eq!(0x01, sent[1].packet_id);
}

// ---------------------------------------------------------------------
// Announcing transactions.
// ---------------------------------------------------------------------

#[test]
fn propagates_transactions() {
    let mut client = TestIo::new();
    client.add_blocks(100);
    client.insert_transaction_to_queue();
    let mut sync = dummy_sync_with_peer(client.block_hash_delta_minus(1), &client);
    let peer_count = sync.propagate_new_transactions(&mut client);
    // Try to propagate same transactions for the second time
    let peer_count2 = sync.propagate_new_transactions(&mut client);
    // Even after new block transactions should not be propagated twice
    sync.chain_new_blocks(&mut client, &none(), &none(), &none(), &none(), &none(), &vec![], 0);
    // Try to propagate same transactions for the third time
    let peer_count3 = sync.propagate_new_transactions(&mut client);

    let sent = packets(&sync);
    // 1 message should be send
    assert_eq!(1, sent.len());
    // 1 peer should be updated but only once
    assert_eq!(1, peer_count);
    assert_eq!(0, peer_count2);
    assert_eq!(0, peer_count3);
    // TRANSACTIONS_PACKET
    assert_eq!(0x02, sent[0].packet_id);
}

#[test]
fn does_not_propagate_new_transactions_after_new_block() {
    let mut client = TestIo::new();
    client.add_blocks(100);
    client.insert_transaction_to_queue();
    let mut sync = dummy_sync_with_peer(client.block_hash_delta_minus(1), &client);
    let peer_count = sync.propagate_new_transactions(&mut client);
    client.insert_transaction_to_queue();
    // New block import should not trigger propagation.
    // (we only propagate on timeout)
    sync.chain_new_blocks(&mut client, &none(), &none(), &none(), &none(), &none(), &vec![], 0);

    let sent = packets(&sync);
    // 2 message should be send
    assert_eq!(1, sent.len());
    // 1 peer should receive the message
    assert_eq!(1, peer_count);
    // TRANSACTIONS_PACKET
    assert_eq!(0x02, sent[0].packet_id);
}

#[test]
fn does_not_fail_for_no_peers() {
    let mut client = TestIo::new();
    client.add_blocks(100);
    client.insert_transaction_to_queue();
    // Sync with no peers
    let mut sync = new_sync(config(), &client);
    let peer_count = sync.propagate_new_transactions(&mut client);
    sync.chain_new_blocks(&mut client, &none(), &none(), &none(), &none(), &none(), &vec![], 0);
    // Try to propagate same transactions for the second time
    let peer_count2 = sync.propagate_new_transactions(&mut client);

    assert_eq!(0, sync.outbox.len());
    assert_eq!(0, peer_count);
    assert_eq!(0, peer_count2);
}

#[test]
fn propagates_transactions_without_alternating() {
    let mut client = TestIo::new();
    client.add_blocks(100);
    client.insert_transaction_to_queue();
    let mut sync = dummy_sync_with_peer(client.block_hash_delta_minus(1), &client);
    // should sent some
    {
        let peer_count = sync.propagate_new_transactions(&mut client);
        assert_eq!(1, sync.outbox.len());
        assert_eq!(1, peer_count);
    }
    // Insert some more
    client.insert_transaction_to_queue();
    let (peer_count2, peer_count3) = {
        // Propagate new transactions
        let peer_count2 = sync.propagate_new_transactions(&mut client);
        // And now the peer should have all transactions
        let peer_count3 = sync.propagate_new_transactions(&mut client);
        (peer_count2, peer_count3)
    };

    let sent = packets(&sync);
    // 2 message should be send (in total)
    assert_eq!(2, sent.len());
    // 1 peer should be updated but only once after inserting new transaction
    assert_eq!(1, peer_count2);
    assert_eq!(0, peer_count3);
    // TRANSACTIONS_PACKET
    assert_eq!(0x02, sent[0].packet_id);
    assert_eq!(0x02, sent[1].packet_id);
    // The second packet holds the one transaction that was new.
    assert_eq!(1, item_count(&sent[1].data).unwrap());
    assert_eq!(client.transactions[1].raw, item_at(&sent[1].data, 0).unwrap().to_vec());
}

#[test]
fn should_maintain_transations_propagation_stats() {
    let mut client = TestIo::new();
    client.add_blocks(100);
    client.insert_transaction_to_queue();
    let mut sync = dummy_sync_with_peer(client.block_hash_delta_minus(1), &client);
    sync.propagate_new_transactions(&mut client);

    let stats = sync.transactions_stats();
    assert_eq!(stats.len(), 1, "Should maintain stats for single transaction.")
}

#[test]
fn statistics_forget_transactions_that_wait_no_longer() {
    let mut client = TestIo::new();
    client.add_blocks(100);
    let first = client.insert_transaction_to_queue();
    let mut sync = dummy_sync_with_peer(client.block_hash_delta_minus(1), &client);
    sync.propagate_new_transactions(&mut client);
    assert_eq!(first, sync.transactions_stats().pending[0].hash);
    assert_eq!(100, sync.transactions_stats().pending[0].first_seen);
    assert_eq!(vec![0], sync.transactions_stats().pending[0].propagated_to);
    client.transactions.clear();
    client.transactions.push(transaction(9, false));
    let second_hash = client.transactions[0].hash;
    assert_ne!(first, second_hash);
    sync.propagate_new_transactions(&mut client);
    assert_eq!(1, sync.transactions_stats().len());
    assert_eq!(second_hash, sync.transactions_stats().pending[0].hash);
}

#[test]
fn should_propagate_service_transaction_to_selected_peers_only() {
    let mut client = TestIo::new();
    client.insert_transaction_with_gas_price_to_queue(true);
    let block_hash = client.block_hash_delta_minus(1);
    let mut sync = new_sync(config(), &client);

    // when peer#1 is Geth
    insert_dummy_peer(&mut sync, 1, block_hash);
    client.clients.push((1, b"Geth".to_vec()));
    // and peer#2 is Parity, accepting service transactions
    insert_dummy_peer(&mut sync, 2, block_hash);
    client.clients.push((2, b"Parity/v1.6".to_vec()));
    // and peer#3 is Parity, discarding service transactions
    insert_dummy_peer(&mut sync, 3, block_hash);
    client.clients.push((3, b"Parity/v1.5".to_vec()));
    // and peer#4 is Parity, accepting service transactions
    insert_dummy_peer(&mut sync, 4, block_hash);
    client.clients.push((4, b"Parity/v1.7.3-ABCDEFGH".to_vec()));

    // and new service transaction is propagated to peers
    sync.propagate_new_transactions(&mut client);

    let sent = packets(&sync);
    // peer#2 && peer#4 are receiving service transaction
    assert!(sent.iter().any(|p| p.packet_id == 0x02 && p.recipient == 2)); // TRANSACTIONS_PACKET
    assert!(sent.iter().any(|p| p.packet_id == 0x02 && p.recipient == 4)); // TRANSACTIONS_PACKET
    assert_eq!(sent.len(), 2);
}

#[test]
fn should_propagate_service_transaction_is_sent_as_separate_message() {
    let mut client = TestIo::new();
    let tx1_hash = client.insert_transaction_to_queue();
    let tx2_hash = client.insert_transaction_with_gas_price_to_queue(true);
    let block_hash = client.block_hash_delta_minus(1);
    let mut sync = new_sync(config(), &client);

    // when peer#1 is Parity, accepting service transactions
    insert_dummy_peer(&mut sync, 1, block_hash);
    client.clients.push((1, b"Parity/v1.6".to_vec()));

    // and service + non-service transactions are propagated to peers
    sync.propagate_new_transactions(&mut client);

    // two separate packets for peer are queued:
    // 1) with non-service-transaction
    // 2) with service transaction
    let sent_transactions: Vec<H256> = packets(&sync)
        .iter()
        .filter_map(|p| {
            if p.packet_id != 0x02 || p.recipient != 1 {
                // TRANSACTIONS_PACKET
                return None;
            }

            let item_count = item_count(&p.data).unwrap_or(0);
            if item_count != 1 {
                return None;
            }

            item_at(&p.data, 0).ok().map(|raw| keccak(raw))
        })
        .collect();
    assert_eq!(sent_transactions.len(), 2);
    assert!(sent_transactions.iter().any(|hash| *hash == tx1_hash));
    assert!(sent_transactions.iter().any(|hash| *hash == tx2_hash));
}

#[test]
fn a_peer_that_was_told_of_all_is_told_no_more() {
    let mut client = TestIo::new();
    client.insert_transaction_to_queue();
    client.insert_transaction_to_queue();
    let block_hash = client.block_hash_delta_minus(1);
    let mut sync = new_sync(config(), &client);
    insert_dummy_peer(&mut sync, 1, block_hash);
    insert_dummy_peer(&mut sync, 2, block_hash);
    insert_dummy_peer(&mut sync, 3, block_hash);
    let txs = client.ready_transactions();
    assert_eq!(3, sync.propagate_ready_transactions(&mut client, &txs));
    for entry in &sync.peers.entries {
        assert_eq!(2, entry.value.last_sent_transactions.len());
    }
    assert_eq!(0, sync.propagate_ready_transactions(&mut client, &txs));
    assert_eq!(3, sync.outbox.len());
}

#[test]
fn a_peer_that_has_some_is_told_of_the_rest_up_to_the_most() {
    let mut client = TestIo::new();
    for _ in 0..70 {
        client.insert_transaction_to_queue();
    }
    let block_hash = client.block_hash_delta_minus(1);
    let mut sync = new_sync(config(), &client);
    insert_dummy_peer(&mut sync, 1, block_hash);
    let known = vec![client.transactions[0].hash, client.transactions[1].hash];
    sync.transactions_received(&known, 1);
    assert_eq!(2, sync.peers.get(1).unwrap().last_sent_transactions.len());
    let txs = client.ready_transactions();
    assert_eq!(1, sync.propagate_ready_transactions(&mut client, &txs));
    let sent = packets(&sync);
    // No more than 64 in a packet to a peer that knows some.
    assert_eq!(64, item_count(&sent[0].data).unwrap());
    assert_eq!(client.transactions[2].raw, item_at(&sent[0].data, 0).unwrap().to_vec());
    assert_eq!(66, sync.peers.get(1).unwrap().last_sent_transactions.len());
    // The remaining four go out next.
    assert_eq!(1, sync.propagate_ready_transactions(&mut client, &txs));
    assert_eq!(4, item_count(&packets(&sync)[1].data).unwrap());
    assert_eq!(0, sync.propagate_ready_transactions(&mut client, &txs));
}

#[test]
fn transactions_received_from_an_unknown_peer_are_not_noted() {
    let client = TestIo::new();
    let mut sync = dummy_sync_with_peer(client.block_hash_delta_minus(1), &client);
    sync.transactions_received(&vec![H256::zero()], 9);
    assert_eq!(0, sync.peers.get(0).unwrap().last_sent_transactions.len());
    sync.transactions_received(&vec![H256::zero(), H256::zero()], 0);
    assert_eq!(1, sync.peers.get(0).unwrap().last_sent_transactions.len());
}

#[test]
fn enacted_blocks_make_a_peer_hear_all_transactions_again() {
    let mut client = TestIo::new();
    client.add_blocks(100);
    client.insert_transaction_to_queue();
    let mut sync = dummy_sync_with_peer(client.block_hash_delta_minus(1), &client);
    assert_eq!(1, sync.propagate_new_transactions(&mut client));
    let enacted = vec![client.block_hash_delta_minus(1)];
    sync.chain_new_blocks(&mut client, &none(), &none(), &enacted, &none(), &none(), &vec![], 0);
    assert_eq!(0, sync.peers.get(0).unwrap().last_sent_transactions.len());
    assert_eq!(1, sync.propagate_new_transactions(&mut client));
}

// ---------------------------------------------------------------------
// Announcements from peers.
// ---------------------------------------------------------------------

#[test]
fn handles_peer_new_block_malformed() {
    let mut client = TestIo::new();
    client.add_blocks(10);

    let block_data = get_dummy_block(11, client.chain_info().best_block_hash);

    let mut sync = dummy_sync_with_peer(client.block_hash_delta_minus(5), &client);

    let result = sync.on_peer_new_block(&mut client, 0, &block_data, 0);

    assert!(result.is_err());
}

// The announcement is a list of two items, the block and then the total
// difficulty.  With the difficulty behind a list of the block alone, the
// decoder of this version of `rlp` does not read it, and the packet is an
// error: see `a_difficulty_that_follows_the_list_is_not_read`.
#[test]
fn handles_peer_new_block() {
    let mut client = TestIo::new();
    client.add_blocks(10);

    let block_data = get_dummy_blocks(11, client.chain_info().best_block_hash);

    let mut sync = dummy_sync_with_peer(client.block_hash_delta_minus(5), &client);

    let result = sync.on_peer_new_block(&mut client, 0, &block_data, 0);

    assert!(result.is_ok());
    // The block went to the chain client as it came.
    assert_eq!(
        vec![get_dummy_block(11, client.chain_info().best_block_hash)],
        client.imported
    );
    // What the peer said of itself is noted.
    let peer = sync.peers.get(0).unwrap();
    assert_eq!(Some(U256::from_u64(1100)), peer.difficulty);
    assert_eq!(keccak(&header_bytes(11, &client.chain_info().best_block_hash)), peer.latest_hash);
    assert_eq!(Some(11), sync.highest_block);
    assert_eq!(1, sync.new_blocks.known.len());
}

#[test]
fn a_difficulty_that_follows_the_list_is_not_read() {
    let mut client = TestIo::new();
    client.add_blocks(10);
    let block_data = block_with_difficulty_outside(11, client.chain_info().best_block_hash);
    let mut sync = dummy_sync_with_peer(client.block_hash_delta_minus(5), &client);
    let result = sync.on_peer_new_block(&mut client, 0, &block_data, 0);
    assert!(result.is_err());
    assert!(client.imported.is_empty());
}

#[test]
fn handles_peer_new_block_empty() {
    let mut client = TestIo::new();
    client.add_blocks(10);
    let mut sync = dummy_sync_with_peer(client.block_hash_delta_minus(5), &client);

    let empty_data = vec![];

    let result = sync.on_peer_new_block(&mut client, 0, &empty_data, 0);

    assert!(result.is_err());
}

#[test]
fn handles_peer_new_hashes() {
    let mut client = TestIo::new();
    client.add_blocks(10);
    let mut sync = dummy_sync_with_peer(client.block_hash_delta_minus(5), &client);

    let hashes_data = get_dummy_hashes();

    let result = sync.on_peer_new_hashes(&mut client, 0, &hashes_data, 0);

    assert!(result.is_ok());
}

#[test]
fn handles_peer_new_hashes_empty() {
    let mut client = TestIo::new();
    client.add_blocks(10);
    let mut sync = dummy_sync_with_peer(client.block_hash_delta_minus(5), &client);

    let empty_hashes_data = vec![];

    let result = sync.on_peer_new_hashes(&mut client, 0, &empty_hashes_data, 0);

    assert!(result.is_ok());
}

// idea is that what we produce when propagading latest hashes should be accepted in
// on_peer_new_hashes in our code as well
#[test]
fn hashes_rlp_mutually_acceptable() {
    let mut client = TestIo::new();
    client.add_blocks(100);
    let mut sync = dummy_sync_with_peer(client.block_hash_delta_minus(5), &client);
    let chain_info = client.chain_info();

    let peers = sync.get_lagging_peers(&chain_info);
    sync.propagate_new_hashes(&chain_info, &mut client, &peers);

    let data = packets(&sync)[0].data.clone();
    let result = sync.on_peer_new_hashes(&mut client, 0, &data, 0);
    assert!(result.is_ok());
}

// idea is that what we produce when propagading latest block should be accepted in
// on_peer_new_block  in our code as well
#[test]
fn block_rlp_mutually_acceptable() {
    let mut client = TestIo::new();
    client.add_blocks(100);
    let mut sync = dummy_sync_with_peer(client.block_hash_delta_minus(5), &client);
    let chain_info = client.chain_info();

    let peers = sync.get_lagging_peers(&chain_info);
    sync.propagate_blocks(&chain_info, &mut client, &none(), &peers);

    let data = packets(&sync)[0].data.clone();
    let result = sync.on_peer_new_block(&mut client, 0, &data, 0);
    assert!(result.is_ok());
}

// The part of the miner: the transaction of a block that was retracted waits
// again, that of a block that was enacted waits no longer.
fn miner_chain_new_blocks(client: &mut TestIo, enacted: &[H256], retracted: &[H256]) {
    for hash in enacted {
        let number = client.find(hash).unwrap().number;
        let mined = transaction(number as u8, false).hash;
        client.transactions.retain(|tx| tx.hash != mined);
    }
    for hash in retracted {
        let number = client.find(hash).unwrap().number;
        client.transactions.push(transaction(number as u8, false));
    }
}

#[test]
fn should_add_transactions_to_queue() {
    // given
    let mut client = TestIo::new();
    client.add_blocks(100);
    let mut sync = dummy_sync_with_peer(client.block_hash_delta_minus(5), &client);

    let good_blocks = vec![client.block_hash_delta_minus(2)];
    let retracted_blocks = vec![client.block_hash_delta_minus(1)];

    // when
    miner_chain_new_blocks(&mut client, &[], &good_blocks);
    sync.chain_new_blocks(&mut client, &none(), &none(), &none(), &good_blocks, &none(), &vec![], 0);
    assert_eq!(client.ready_transactions().len(), 1);
    miner_chain_new_blocks(&mut client, &good_blocks, &retracted_blocks);
    sync.chain_new_blocks(
        &mut client,
        &none(),
        &none(),
        &good_blocks,
        &retracted_blocks,
        &none(),
        &vec![],
        0,
    );

    // then
    assert_eq!(client.ready_transactions().len(), 1);
    assert!(sync.is_well_formed());
}

#[test]
fn should_not_add_transactions_to_queue_if_not_synced() {
    // given
    let mut client = TestIo::new();
    client.add_blocks(100);
    let mut sync = dummy_sync_with_peer(client.block_hash_delta_minus(5), &client);

    let good_blocks = vec![client.block_hash_delta_minus(2)];
    let retracted_blocks = vec![client.block_hash_delta_minus(1)];

    // when
    sync.chain_new_blocks(&mut client, &none(), &none(), &none(), &good_blocks, &none(), &vec![], 0);
    assert_eq!(client.queued_transactions.len(), 0);
    sync.chain_new_blocks(
        &mut client,
        &none(),
        &none(),
        &good_blocks,
        &retracted_blocks,
        &none(),
        &vec![],
        0,
    );

    // then
    assert_eq!(client.queued_transactions.len(), 0);
}

fn new_block_in(state: SyncState, result: ImportResult) -> (Sync, TestIo) {
    let mut client = TestIo::new();
    client.add_blocks(10);
    client.import_result = result;
    let block_data = get_dummy_blocks(11, H256 { w0: 1, w1: 2, w2: 3, w3: 4 });
    let mut sync = dummy_sync_with_peer(client.block_hash_delta_minus(5), &client);
    sync.active_peers.insert(0, ());
    sync.state = state;
    sync.new_blocks.requests.push(BlockRequest::Headers {
        start: client.block_hash_delta_minus(1),
        count: 16,
        skip: 0,
    });
    assert!(sync.on_peer_new_block(&mut client, 0, &block_data, 55).is_ok());
    (sync, client)
}

#[test]
fn new_block_with_unknown_parent_starts_fetching_when_in_step() {
    let (sync, client) = new_block_in(SyncState::Idle, ImportResult::UnknownParent);
    assert_eq!(SyncState::NewBlocks, sync.state);
    // The sender was asked, though nothing is known of its difficulty
    // that would make it worth asking.
    let sent = packets(&sync);
    assert_eq!(1, sent.len());
    assert_eq!(0x03, sent[0].packet_id);
    assert_eq!(0, sent[0].recipient);
    let peer = sync.peers.get(0).unwrap();
    assert_eq!(PeerAsking::BlockHeaders, peer.asking);
    assert_eq!(Some(client.block_hash_delta_minus(1)), peer.asking_hash);
    assert_eq!(Some(BlockSet::NewBlocks), peer.block_set);
    assert_eq!(55, peer.ask_time);
}

#[test]
fn new_block_with_unknown_parent_changes_nothing_while_syncing() {
    let (sync, _) = new_block_in(SyncState::Waiting, ImportResult::UnknownParent);
    assert_eq!(SyncState::Waiting, sync.state);
    assert_eq!(0, sync.outbox.len());
    assert_eq!(PeerAsking::Nothing, sync.peers.get(0).unwrap().asking);
}

#[test]
fn a_bad_new_block_gets_the_peer_turned_away() {
    let (sync, _) = new_block_in(SyncState::Idle, ImportResult::Bad);
    assert!(matches!(sync.outbox[0], Action::Disable { peer: 0 }));
    assert_eq!(SyncState::Idle, sync.state);
}

#[test]
fn a_new_block_that_is_known_changes_nothing() {
    let (sync, _) = new_block_in(SyncState::Idle, ImportResult::AlreadyInChain);
    assert_eq!(SyncState::Idle, sync.state);
    assert_eq!(0, sync.new_blocks.known.len());
    let (sync, _) = new_block_in(SyncState::Idle, ImportResult::AlreadyQueued);
    assert_eq!(0, sync.new_blocks.known.len());
}

#[test]
fn an_old_new_block_is_dropped() {
    let mut client = TestIo::new();
    client.add_blocks(10);
    let block_data = get_dummy_blocks(11, client.chain_info().best_block_hash);
    let mut sync = dummy_sync_with_peer(client.block_hash_delta_minus(5), &client);
    sync.new_blocks.last_imported = 32;
    assert!(sync.on_peer_new_block(&mut client, 0, &block_data, 0).is_ok());
    // The peer is not turned away for it.
    assert!(sync.outbox.is_empty());
    assert!(client.imported.is_empty());
    // What the peer said of itself is noted all the same.
    assert_eq!(Some(11), sync.highest_block);
    // Twenty behind is not too old.
    let mut sync = dummy_sync_with_peer(client.block_hash_delta_minus(5), &client);
    sync.new_blocks.last_imported = 31;
    assert!(sync.on_peer_new_block(&mut client, 0, &block_data, 0).is_ok());
    assert_eq!(1, client.imported.len());
}

#[test]
fn a_new_block_from_a_peer_that_cannot_sync_is_dropped() {
    let mut client = TestIo::new();
    client.add_blocks(10);
    let mut sync = dummy_sync_with_peer(client.block_hash_delta_minus(5), &client);
    sync.peers.entries[0].value.expired = true;
    // Not even a packet that cannot be read is an error.
    assert!(sync.on_peer_new_block(&mut client, 0, &vec![], 0).is_ok());
    assert!(sync.on_peer_new_block(&mut client, 3, &vec![], 0).is_ok());
}

fn announce(pairs: &[(H256, u64)]) -> Vec<u8> {
    let mut rlp = rlp::RlpStream::new_list(pairs.len());
    for (hash, number) in pairs {
        let mut pair = rlp::RlpStream::new_list(2);
        pair.append(&eth_hash(hash));
        pair.append(number);
        rlp.append_raw(&pair.out(), 1);
    }
    rlp.out()
}

#[test]
fn new_hashes_of_unknown_blocks_are_fetched() {
    let mut client = TestIo::new();
    client.add_blocks(10);
    let mut sync = dummy_sync_with_peer(client.block_hash_delta_minus(5), &client);
    sync.active_peers.insert(0, ());
    sync.new_blocks.requests.push(BlockRequest::Bodies { hashes: vec![H256::zero()] });
    let a = H256 { w0: 0, w1: 0, w2: 0, w3: 11 };
    let b = H256 { w0: 0, w1: 0, w2: 0, w3: 12 };
    let known = client.block_hash_delta_minus(2);
    let data = announce(&[(a, 11), (known, 9), (b, 12)]);
    assert!(sync.on_peer_new_hashes(&mut client, 0, &data, 7).is_ok());
    assert_eq!(vec![a, b], sync.new_blocks.heads);
    assert_eq!(SyncState::NewBlocks, sync.state);
    assert_eq!(Some(12), sync.highest_block);
    let peer = sync.peers.get(0).unwrap();
    assert_eq!(b, peer.latest_hash);
    assert_eq!(PeerAsking::BlockBodies, peer.asking);
    assert_eq!(vec![H256::zero()], peer.asking_blocks);
    let sent = packets(&sync);
    assert_eq!(1, sent.len());
    assert_eq!(0x05, sent[0].packet_id);
}

#[test]
fn new_hashes_are_only_counted_while_syncing() {
    let mut client = TestIo::new();
    client.add_blocks(10);
    let mut sync = dummy_sync_with_peer(client.block_hash_delta_minus(5), &client);
    sync.state = SyncState::SnapshotWaiting;
    sync.peers.entries[0].value.difficulty = Some(U256::from_u64(5));
    let a = H256 { w0: 0, w1: 0, w2: 0, w3: 11 };
    let b = H256 { w0: 0, w1: 0, w2: 0, w3: 12 };
    let data = announce(&[(a, 40), (b, 12)]);
    assert!(sync.on_peer_new_hashes(&mut client, 0, &data, 7).is_ok());
    assert_eq!(Some(40), sync.highest_block);
    assert_eq!(SyncState::SnapshotWaiting, sync.state);
    assert!(sync.new_blocks.heads.is_empty());
    let peer = sync.peers.get(0).unwrap();
    assert_eq!(b, peer.latest_hash);
    assert_eq!(None, peer.difficulty);
}

#[test]
fn a_new_hash_that_cannot_be_read_is_an_error_when_in_step() {
    let mut client = TestIo::new();
    client.add_blocks(10);
    let mut sync = dummy_sync_with_peer(client.block_hash_delta_minus(5), &client);
    let mut rlp = rlp::RlpStream::new_list(1);
    let mut pair = rlp::RlpStream::new_list(2);
    pair.append(&7u64);
    pair.append(&8u64);
    rlp.append_raw(&pair.out(), 1);
    let data = rlp.out();
    assert!(sync.on_peer_new_hashes(&mut client, 0, &data, 7).is_err());
    sync.state = SyncState::Blocks;
    assert!(sync.on_peer_new_hashes(&mut client, 0, &data, 7).is_ok());
}

#[test]
fn a_new_hash_of_an_old_block_is_passed_over() {
    let mut client = TestIo::new();
    client.add_blocks(10);
    let mut sync = dummy_sync_with_peer(client.block_hash_delta_minus(5), &client);
    sync.active_peers.insert(0, ());
    sync.new_blocks.last_imported = 100;
    let old = H256 { w0: 7, w1: 7, w2: 7, w3: 7 };
    let fresh = H256 { w0: 8, w1: 8, w2: 8, w3: 8 };
    let data = announce(&[(old, 50), (fresh, 101)]);
    assert!(sync.on_peer_new_hashes(&mut client, 0, &data, 0).is_ok());
    // The peer is not turned away, and only the other block is fetched.
    assert!(sync.outbox.iter().all(|a| !matches!(a, Action::Disable { .. })));
    assert_eq!(vec![fresh], sync.new_blocks.heads);
    assert_eq!(Some(101), sync.highest_block);
}

#[test]
fn a_new_hash_of_a_bad_block_gets_the_peer_turned_away() {
    let mut client = TestIo::new();
    client.add_blocks(10);
    let mut sync = dummy_sync_with_peer(client.block_hash_delta_minus(5), &client);
    let a = H256 { w0: 0, w1: 0, w2: 0, w3: 11 };
    client.bad.push(a);
    let data = announce(&[(a, 11)]);
    assert!(sync.on_peer_new_hashes(&mut client, 0, &data, 7).is_ok());
    assert!(matches!(sync.outbox[0], Action::Disable { peer: 0 }));
    assert_eq!(SyncState::Idle, sync.state);
}

#[test]
fn no_more_new_hashes_are_read_than_the_most() {
    let mut client = TestIo::new();
    client.add_blocks(10);
    let mut sync = dummy_sync_with_peer(client.block_hash_delta_minus(5), &client);
    let mut pairs = Vec::new();
    for n in 0..70u64 {
        pairs.push((H256 { w0: 9, w1: 0, w2: 0, w3: n }, 100 + n));
    }
    let data = announce(&pairs);
    assert!(sync.on_peer_new_hashes(&mut client, 0, &data, 7).is_ok());
    assert_eq!(64, sync.new_blocks.heads.len());
    assert_eq!(Some(163), sync.highest_block);
}

#[test]
fn transactions_are_taken_only_in_step_with_an_empty_queue() {
    let mut client = TestIo::new();
    client.add_blocks(10);
    let mut sync = dummy_sync_with_peer(client.block_hash_delta_minus(5), &client);
    let mut rlp = rlp::RlpStream::new_list(3);
    rlp.append_raw(&transaction(1, false).raw, 1);
    let mut large = rlp::RlpStream::new_list(1);
    large.append(&vec![7u8; 300 * 1024]);
    rlp.append_raw(&large.out(), 1);
    rlp.append_raw(&transaction(2, false).raw, 1);
    let data = rlp.out();

    sync.state = SyncState::Blocks;
    assert!(sync.on_peer_transactions(&mut client, 0, &data).is_ok());
    assert!(client.queued_transactions.is_empty());

    sync.state = SyncState::Idle;
    client.queue.verified_queue_size = 1;
    assert!(sync.on_peer_transactions(&mut client, 0, &data).is_ok());
    assert!(client.queued_transactions.is_empty());

    client.queue.verified_queue_size = 0;
    assert!(sync.on_peer_transactions(&mut client, 5, &data).is_ok());
    assert!(client.queued_transactions.is_empty());

    assert!(sync.on_peer_transactions(&mut client, 0, &data).is_ok());
    // The one that is too large was left out.
    assert_eq!(vec![transaction(1, false).raw, transaction(2, false).raw], client.queued_transactions);

    assert!(sync.on_peer_transactions(&mut client, 0, &[0x83, b'c', b'a', b't']).is_err());
}

#[test]
fn messages_are_passed_on() {
    let mut client = TestIo::new();
    let mut sync = dummy_sync_with_peer(client.block_hash_delta_minus(1), &client);
    assert!(Sync::on_consensus_packet(&mut client, 0, &[1, 2, 3]).is_ok());
    assert_eq!(vec![vec![1u8, 2, 3]], client.consensus_messages);
    assert!(sync.on_private_transaction(&mut client, 0, &[1]).is_ok());
    assert!(sync.on_signed_private_transaction(&mut client, 0, &[1]).is_ok());
    assert_eq!(2, client.private_transactions);
    sync.peers.entries[0].value.confirmation = ForkConfirmation::TooShort;
    assert!(sync.on_private_transaction(&mut client, 0, &[1]).is_ok());
    assert_eq!(2, client.private_transactions);
}

// ---------------------------------------------------------------------
// Greeting peers and the fork block.
// ---------------------------------------------------------------------

fn status_packet(client: &TestIo, version: u8, network: u64, snapshot: Option<(H256, u64)>) -> Vec<u8> {
    let info = client.chain_info();
    let mut s = rlp::RlpStream::new_list(if snapshot.is_some() { 7 } else { 5 });
    s.append(&(version as u32));
    s.append(&network);
    s.append(&ethereum_types::U256::from(1_000_000_000u64));
    s.append(&eth_hash(&H256 { w0: 5, w1: 5, w2: 5, w3: 5 }));
    s.append(&eth_hash(&info.genesis_hash));
    if let Some((hash, number)) = snapshot {
        s.append(&eth_hash(&hash));
        s.append(&number);
    }
    s.out()
}

fn greet(
    sync: &mut Sync,
    client: &mut TestIo,
    id: PeerId,
    version: u8,
    network: u64,
    snapshot: Option<(H256, u64)>,
    now: u64,
) -> Result<(), chain_sync::codec::PacketDecodeError> {
    let data = status_packet(client, version, network, snapshot);
    sync.on_peer_status(client, id, &data, now)
}

#[test]
fn a_peer_is_greeted_with_our_status() {
    let mut client = TestIo::new();
    client.add_blocks(3);
    let mut sync = new_sync(config(), &client);
    sync.on_peer_connected(&mut client, 4, 1000);
    let sent = packets(&sync);
    assert_eq!(1, sent.len());
    assert_eq!((4, 0x00), (sent[0].recipient, sent[0].packet_id));
    let info = client.chain_info();
    let mut s = rlp::RlpStream::new_list(5);
    s.append(&63u32);
    s.append(&1u64);
    s.append(&ethereum_types::U256::from(600u64));
    s.append(&eth_hash(&info.best_block_hash));
    s.append(&eth_hash(&info.genesis_hash));
    assert_eq!(s.out(), sent[0].data);
    assert_eq!(Some(&1000), sync.handshaking_peers.get(4));
}

#[test]
fn a_peer_of_the_snapshot_protocol_is_told_of_our_manifest() {
    let mut client = TestIo::new();
    client.warp.push((4, 2));
    let manifest = ManifestData {
        version: 2,
        state_hashes: vec![H256 { w0: 1, w1: 0, w2: 0, w3: 0 }],
        block_hashes: vec![H256 { w0: 2, w1: 0, w2: 0, w3: 0 }, H256 { w0: 3, w1: 0, w2: 0, w3: 0 }],
        state_root: H256 { w0: 4, w1: 0, w2: 0, w3: 0 },
        block_number: 77,
        block_hash: H256 { w0: 5, w1: 0, w2: 0, w3: 0 },
    };
    client.manifest = Some(manifest.clone());
    let mut sync = new_sync(config(), &client);
    sync.on_peer_connected(&mut client, 4, 1000);
    let data = packets(&sync)[0].data.clone();
    assert_eq!(7, item_count(&data).unwrap());
    assert_eq!(2, chain_sync::codec::u8_at(&data, 0).unwrap());
    assert_eq!(keccak(&encode_manifest(&manifest)), chain_sync::codec::hash_at(&data, 5).unwrap());
    assert_eq!(77, chain_sync::codec::u64_at(&data, 6).unwrap());
    // With none on offer, both are zero.
    client.manifest = None;
    sync.on_peer_connected(&mut client, 4, 1000);
    let data = packets(&sync)[1].data.clone();
    assert_eq!(H256::zero(), chain_sync::codec::hash_at(&data, 5).unwrap());
    assert_eq!(0, chain_sync::codec::u64_at(&data, 6).unwrap());
}

#[test]
fn no_snapshot_is_told_of_while_old_blocks_are_fetched() {
    let mut client = TestIo::new();
    client.add_blocks(10);
    client.warp.push((4, 2));
    client.manifest = Some(ManifestData {
        version: 2,
        state_hashes: vec![H256 { w0: 1, w1: 0, w2: 0, w3: 0 }],
        block_hashes: vec![H256 { w0: 2, w1: 0, w2: 0, w3: 0 }],
        state_root: H256 { w0: 4, w1: 0, w2: 0, w3: 0 },
        block_number: 77,
        block_hash: H256 { w0: 5, w1: 0, w2: 0, w3: 0 },
    });
    let mut info = client.chain_info();
    info.ancient_block_hash = Some(client.blocks[2].hash);
    info.ancient_block_number = Some(2);
    info.first_block_hash = Some(client.blocks[8].hash);
    let mut sync: Sync = ChainSync::new(config(), &info, random::new());
    assert!(sync.old_blocks.is_some());
    sync.on_peer_connected(&mut client, 4, 1000);
    let data = packets(&sync)[0].data.clone();
    assert_eq!(5, item_count(&data).unwrap());
    assert_eq!(2, chain_sync::codec::u8_at(&data, 0).unwrap());
    // A peer of the base protocol is sent five items in any case.
    sync.on_peer_connected(&mut client, 5, 1000);
    let data = packets(&sync)[1].data.clone();
    assert_eq!(5, item_count(&data).unwrap());
    assert_eq!(63, chain_sync::codec::u8_at(&data, 0).unwrap());
}

#[test]
fn a_peer_is_admitted_on_its_status() {
    let mut client = TestIo::new();
    client.add_blocks(3);
    let mut sync = new_sync(config(), &client);
    sync.on_peer_connected(&mut client, 4, 1000);
    let data = status_packet(&client, 63, 1, None);
    assert!(sync.on_peer_status(&mut client, 4, &data, 1200).is_ok());
    assert!(!sync.handshaking_peers.contains_key(4));
    let peer = sync.peers.get(4).unwrap();
    assert_eq!(63, peer.protocol_version);
    assert_eq!(1, peer.network_id);
    assert_eq!(Some(U256::from_u64(1_000_000_000)), peer.difficulty);
    assert_eq!(H256 { w0: 5, w1: 5, w2: 5, w3: 5 }, peer.latest_hash);
    assert_eq!(client.chain_info().genesis_hash, peer.genesis);
    assert_eq!(ForkConfirmation::Confirmed, peer.confirmation);
    assert_eq!(None, peer.snapshot_hash);
    assert!(sync.active_peers.contains_key(4));
    assert_eq!(Some(1200), sync.sync_start_time);
    // A second status changes nothing.
    let before = sync.outbox.len();
    assert!(greet(&mut sync, &mut client, 4, 62, 1, None, 1300).is_ok());
    assert_eq!(63, sync.peers.get(4).unwrap().protocol_version);
    assert_eq!(before, sync.outbox.len());
}

#[test]
fn a_peer_of_another_kind_is_turned_away() {
    let mut client = TestIo::new();
    client.add_blocks(3);
    let mut sync = new_sync(config(), &client);
    // Another network.
    assert!(greet(&mut sync, &mut client, 1, 63, 2, None, 0).is_ok());
    // A version that is not spoken.
    assert!(greet(&mut sync, &mut client, 2, 61, 1, None, 0).is_ok());
    // A version of the other protocol.
    assert!(greet(&mut sync, &mut client, 3, 2, 1, None, 0).is_ok());
    // Another chain.
    let mut other = TestIo::new();
    other.blocks[0].hash = H256 { w0: 1, w1: 1, w2: 1, w3: 1 };
    assert!(sync.on_peer_status(&mut client, 4, &status_packet(&other, 63, 1, None), 0).is_ok());
    assert!(sync.peers.is_empty());
    assert_eq!(4, sync.outbox.len());
    for (i, action) in sync.outbox.iter().enumerate() {
        assert!(matches!(action, Action::Disable { peer } if *peer == i + 1));
    }
    // A session that is gone is not answered at all.
    client.expired = true;
    assert!(greet(&mut sync, &mut client, 5, 63, 2, None, 0).is_ok());
    assert_eq!(4, sync.outbox.len());
    // A status that cannot be read is an error.
    assert!(sync.on_peer_status(&mut client, 6, &[0xc1, 0x3f], 0).is_err());
}

#[test]
fn the_snapshot_protocol_has_its_own_versions() {
    let mut client = TestIo::new();
    client.warp.push((1, 1));
    client.warp.push((2, 1));
    let mut sync = new_sync(config(), &client);
    let snapshot = Some((H256 { w0: 8, w1: 0, w2: 0, w3: 0 }, 50_000u64));
    assert!(greet(&mut sync, &mut client, 1, 3, 1, snapshot, 0).is_ok());
    assert!(greet(&mut sync, &mut client, 2, 63, 1, snapshot, 0).is_ok());
    assert!(sync.peers.contains_key(1));
    assert!(!sync.peers.contains_key(2));
    assert_eq!(Some(50_000), sync.peers.get(1).unwrap().snapshot_number);
    // Without the two items of the snapshot the status cannot be read.
    assert!(greet(&mut sync, &mut client, 1, 3, 1, None, 0).is_err());
}

fn fork_setup() -> (Sync, TestIo, Vec<u8>) {
    let mut client = TestIo::new();
    client.add_blocks(10);
    let header = client.blocks[5].header.clone();
    let mut config = config();
    config.fork_block = Some((5, client.blocks[5].hash));
    let mut sync = new_sync(config, &client);
    assert!(greet(&mut sync, &mut client, 1, 63, 1, None, 30).is_ok());
    (sync, client, header)
}

fn headers_packet(headers: &[Vec<u8>]) -> Vec<u8> {
    let mut s = rlp::RlpStream::new_list(headers.len());
    for h in headers {
        s.append_raw(h, 1);
    }
    s.out()
}

#[test]
fn a_new_peer_is_asked_for_the_fork_header() {
    let (sync, _, _) = fork_setup();
    let sent = packets(&sync);
    // Exactly one request: for one header, by the number of the fork block.
    assert_eq!(1, sync.outbox.len());
    assert_eq!((1, 0x03), (sent[0].recipient, sent[0].packet_id));
    assert_eq!(vec![0xc4, 0x05, 0x01, 0x80, 0x80], sent[0].data);
    let peer = sync.peers.get(1).unwrap();
    assert_eq!(ForkConfirmation::Unconfirmed, peer.confirmation);
    assert_eq!(PeerAsking::ForkHeader, peer.asking);
    assert_eq!(30, peer.ask_time);
    assert!(!peer.can_sync());
}

#[test]
fn the_right_fork_header_confirms_the_peer() {
    let (mut sync, mut client, header) = fork_setup();
    assert!(sync.on_peer_block_headers(&mut client, 1, &headers_packet(&[header.clone()]), 40).is_ok());
    let peer = sync.peers.get(1).unwrap();
    assert_eq!(ForkConfirmation::Confirmed, peer.confirmation);
    assert_eq!(PeerAsking::Nothing, peer.asking);
    assert_eq!(1, sync.outbox.len());
    // The header is kept for peers that ask for it.
    assert_eq!(vec![(5, header)], client.fork_headers);
    assert_eq!(0, sync.new_blocks.imported_headers);
}

#[test]
fn another_fork_header_gets_the_peer_turned_away() {
    let (mut sync, mut client, _) = fork_setup();
    let other = client.blocks[6].header.clone();
    assert!(sync.on_peer_block_headers(&mut client, 1, &headers_packet(&[other]), 40).is_ok());
    assert_eq!(2, sync.outbox.len());
    assert!(matches!(sync.outbox[1], Action::Disable { peer: 1 }));
    assert_eq!(ForkConfirmation::Unconfirmed, sync.peers.get(1).unwrap().confirmation);
    assert!(client.fork_headers.is_empty());
}

#[test]
fn no_fork_header_means_too_short_a_chain() {
    let (mut sync, mut client, header) = fork_setup();
    assert!(sync.on_peer_block_headers(&mut client, 1, &headers_packet(&[]), 40).is_ok());
    assert_eq!(ForkConfirmation::TooShort, sync.peers.get(1).unwrap().confirmation);
    assert!(sync.peers.get(1).unwrap().is_allowed());
    assert!(!sync.peers.get(1).unwrap().can_sync());
    let (mut sync, mut client2, _) = fork_setup();
    let two = headers_packet(&[header.clone(), header]);
    assert!(sync.on_peer_block_headers(&mut client2, 1, &two, 40).is_ok());
    assert_eq!(ForkConfirmation::TooShort, sync.peers.get(1).unwrap().confirmation);
    // An answer that is no list is an error; the request is answered all the same.
    let (mut sync, _, _) = fork_setup();
    assert!(sync.on_peer_block_headers(&mut client, 1, &[0x05], 40).is_err());
    assert_eq!(PeerAsking::Nothing, sync.peers.get(1).unwrap().asking);
    assert_eq!(ForkConfirmation::Unconfirmed, sync.peers.get(1).unwrap().confirmation);
}

// ---------------------------------------------------------------------
// Handing out work and taking answers.
// ---------------------------------------------------------------------

fn syncing_setup() -> (Sync, TestIo) {
    let mut client = TestIo::new();
    client.add_blocks(10);
    let mut sync = new_sync(config(), &client);
    for id in 1..=2 {
        let mut data = status_packet(&client, 63, 1, None);
        if id == 2 {
            data = status_packet(&client, 62, 1, None);
        }
        assert!(sync.on_peer_status(&mut client, id, &data, 10).is_ok());
    }
    (sync, client)
}

#[test]
fn a_peer_ahead_of_us_is_asked_for_blocks() {
    let (mut sync, mut client) = syncing_setup();
    assert_eq!(0, sync.outbox.len());
    let start = H256 { w0: 0, w1: 0, w2: 0, w3: 77 };
    sync.new_blocks.requests.push(BlockRequest::Headers { start, count: 128, skip: 15 });
    sync.sync_peer(&mut client, 1, false, 20);
    assert_eq!(SyncState::Blocks, sync.state);
    let sent = packets(&sync);
    assert_eq!(1, sent.len());
    assert_eq!((1, 0x03), (sent[0].recipient, sent[0].packet_id));
    let mut expected = rlp::RlpStream::new_list(4);
    expected.append(&eth_hash(&start));
    expected.append(&128u64);
    expected.append(&15u64);
    expected.append(&0u32);
    assert_eq!(expected.out(), sent[0].data);
    let peer = sync.peers.get(1).unwrap();
    assert_eq!(PeerAsking::BlockHeaders, peer.asking);
    assert_eq!(Some(start), peer.asking_hash);
    assert_eq!(Some(BlockSet::NewBlocks), peer.block_set);
    assert_eq!(20, peer.ask_time);
    // A peer that carries a request is not asked again.
    sync.new_blocks.requests.push(BlockRequest::Bodies { hashes: vec![start] });
    sync.sync_peer(&mut client, 1, true, 30);
    assert_eq!(1, sync.outbox.len());
    // The other one is.
    sync.continue_sync(&mut client, 40);
    let sent = packets(&sync);
    assert_eq!(2, sent.len());
    assert_eq!((2, 0x05), (sent[1].recipient, sent[1].packet_id));
    let mut expected = rlp::RlpStream::new_list(1);
    expected.append(&eth_hash(&start));
    assert_eq!(expected.out(), sent[1].data);
    assert_eq!(vec![start], sync.peers.get(2).unwrap().asking_blocks);
}

#[test]
fn a_peer_whose_head_we_have_is_not_asked() {
    let (mut sync, mut client) = syncing_setup();
    sync.peers.entries[0].value.latest_hash = client.block_hash_delta_minus(1);
    sync.new_blocks.requests.push(BlockRequest::Bodies { hashes: vec![H256::zero()] });
    sync.sync_peer(&mut client, 1, true, 20);
    assert_eq!(0, sync.outbox.len());
    assert_eq!(SyncState::Idle, sync.state);
}

#[test]
fn a_peer_behind_us_is_asked_only_when_forced() {
    let (mut sync, mut client) = syncing_setup();
    sync.peers.entries[0].value.difficulty = Some(U256::from_u64(1));
    sync.new_blocks.requests.push(BlockRequest::Receipts { hashes: vec![H256::zero()] });
    sync.sync_peer(&mut client, 1, false, 20);
    assert_eq!(0, sync.outbox.len());
    sync.sync_peer(&mut client, 1, true, 20);
    assert_eq!(1, sync.outbox.len());
    assert_eq!(0x0f, packets(&sync)[0].packet_id);
    assert_eq!(PeerAsking::BlockReceipts, sync.peers.get(1).unwrap().asking);
}

#[test]
fn a_full_queue_pauses_the_sync() {
    let (mut sync, mut client) = syncing_setup();
    client.queue.unverified_queue_size = 2000;
    sync.new_blocks.requests.push(BlockRequest::Bodies { hashes: vec![H256::zero()] });
    sync.sync_peer(&mut client, 1, false, 20);
    assert_eq!(SyncState::Waiting, sync.state);
    assert_eq!(0, sync.outbox.len());
    // Nothing is handed out while paused.
    client.queue.unverified_queue_size = 0;
    sync.sync_peer(&mut client, 1, false, 20);
    assert_eq!(0, sync.outbox.len());
    // Until the upkeep finds room in the queue.
    sync.maintain_sync(&mut client, 30);
    assert_eq!(SyncState::Blocks, sync.state);
    assert_eq!(1, sync.outbox.len());
}

#[test]
fn old_blocks_are_asked_for_when_there_are_no_new_ones() {
    let mut client = TestIo::new();
    client.add_blocks(10);
    let mut info = client.chain_info();
    info.ancient_block_hash = Some(client.blocks[2].hash);
    info.ancient_block_number = Some(2);
    info.first_block_hash = Some(client.blocks[8].hash);
    let mut sync: Sync = ChainSync::new(config(), &info, random::new());
    assert!(sync.old_blocks.as_ref().unwrap().ancient);
    assert_eq!(Some(client.blocks[8].hash), sync.old_blocks.as_ref().unwrap().target);
    assert_eq!(2, sync.old_blocks.as_ref().unwrap().last_imported);
    assert!(greet(&mut sync, &mut client, 1, 63, 1, None, 10).is_ok());
    sync.peers.entries[0].value.difficulty = Some(U256::from_u64(1));
    let wanted = vec![H256 { w0: 0, w1: 0, w2: 0, w3: 3 }];
    sync.old_blocks.as_mut().unwrap().requests.push(BlockRequest::Bodies { hashes: wanted });
    sync.sync_peer(&mut client, 1, false, 20);
    assert_eq!(Some(BlockSet::OldBlocks), sync.peers.get(1).unwrap().block_set);
    assert_eq!(SyncState::Idle, sync.state);
    // Without old blocks to fetch there is no such downloader.
    let mut without = config();
    without.download_old_blocks = false;
    let sync: Sync = ChainSync::new(without, &info, random::new());
    assert!(sync.old_blocks.is_none());
}

fn asked_for_headers() -> (Sync, TestIo) {
    let (mut sync, mut client) = syncing_setup();
    let start = H256 { w0: 0, w1: 0, w2: 0, w3: 77 };
    sync.new_blocks.requests.push(BlockRequest::Headers { start, count: 128, skip: 15 });
    sync.sync_peer(&mut client, 1, false, 20);
    (sync, client)
}

#[test]
fn headers_that_were_asked_for_go_to_the_downloader() {
    let (mut sync, mut client) = asked_for_headers();
    let data = headers_packet(&[client.blocks[3].header.clone()]);
    assert!(sync.on_peer_block_headers(&mut client, 1, &data, 30).is_ok());
    assert_eq!(1, sync.new_blocks.imported_headers);
    assert_eq!(1, sync.new_blocks.collected);
    assert_eq!(1, sync.new_blocks.cleared);
    assert_eq!(PeerAsking::Nothing, sync.peers.get(1).unwrap().asking);
    // With no request in flight and nothing more to ask, the round is over.
    assert_eq!(SyncState::Idle, sync.state);
}

#[test]
fn headers_that_were_not_asked_for_are_dropped() {
    let (mut sync, mut client) = syncing_setup();
    let data = headers_packet(&[client.blocks[3].header.clone()]);
    assert!(sync.on_peer_block_headers(&mut client, 1, &data, 30).is_ok());
    assert!(sync.on_peer_block_headers(&mut client, 9, &data, 30).is_ok());
    assert_eq!(0, sync.new_blocks.imported_headers);
    // Not even a packet that cannot be read is an error then.
    assert!(sync.on_peer_block_headers(&mut client, 1, &[0x01], 30).is_ok());
    let (mut sync, mut client) = asked_for_headers();
    assert!(sync.on_peer_block_headers(&mut client, 1, &[0x01], 30).is_err());
}

#[test]
fn answers_to_expired_requests_are_dropped() {
    let (mut sync, mut client) = asked_for_headers();
    sync.peers.entries[0].value.expired = true;
    let data = headers_packet(&[client.blocks[3].header.clone()]);
    assert!(sync.on_peer_block_headers(&mut client, 1, &data, 30).is_ok());
    assert_eq!(0, sync.new_blocks.imported_headers);
    assert_eq!(0, sync.new_blocks.collected);
    // The peer can be asked again, and no harm is done to it.
    let peer = sync.peers.get(1).unwrap();
    assert!(!peer.expired);
    assert_eq!(PeerAsking::Nothing, peer.asking);
    assert!(sync.outbox.iter().all(|a| !matches!(a, Action::Disable { .. })));

    let (mut sync, mut client) = syncing_setup();
    sync.new_blocks.requests.push(BlockRequest::Bodies { hashes: vec![H256::zero()] });
    sync.sync_peer(&mut client, 1, false, 20);
    sync.peers.entries[0].value.expired = true;
    assert!(sync.on_peer_block_bodies(&mut client, 1, &data, 30).is_ok());
    assert_eq!(0, sync.new_blocks.imported_bodies);

    let (mut sync, mut client) = syncing_setup();
    sync.new_blocks.requests.push(BlockRequest::Receipts { hashes: vec![H256::zero()] });
    sync.sync_peer(&mut client, 1, false, 20);
    sync.peers.entries[0].value.expired = true;
    assert!(sync.on_peer_block_receipts(&mut client, 1, &data, 30).is_ok());
    assert_eq!(0, sync.new_blocks.imported_receipts);
}

#[test]
fn useless_and_wrong_headers() {
    let (mut sync, mut client) = asked_for_headers();
    sync.new_blocks.headers_result = Err(DownloaderImportError::Useless);
    let data = headers_packet(&[client.blocks[3].header.clone()]);
    assert!(sync.on_peer_block_headers(&mut client, 1, &data, 30).is_ok());
    assert!(!sync.active_peers.contains_key(1) || sync.state == SyncState::Idle);
    assert!(sync.outbox.iter().all(|a| !matches!(a, Action::Disable { .. })));

    let (mut sync, mut client) = asked_for_headers();
    sync.new_blocks.headers_result = Err(DownloaderImportError::Invalid);
    assert!(sync.on_peer_block_headers(&mut client, 1, &data, 30).is_ok());
    assert!(matches!(sync.outbox[1], Action::Disable { peer: 1 }));
    assert_eq!(0, sync.new_blocks.collected);
}

#[test]
fn a_downloader_that_starts_over_abandons_its_requests() {
    let (mut sync, mut client) = asked_for_headers();
    sync.new_blocks.requests.push(BlockRequest::Bodies { hashes: vec![H256::zero()] });
    sync.sync_peer(&mut client, 2, false, 20);
    assert_eq!(PeerAsking::BlockBodies, sync.peers.get(2).unwrap().asking);
    sync.new_blocks.headers_result = Ok(DownloadAction::Reset);
    let data = headers_packet(&[client.blocks[3].header.clone()]);
    assert!(sync.on_peer_block_headers(&mut client, 1, &data, 30).is_ok());
    let other = sync.peers.get(2).unwrap();
    assert!(other.expired);
    assert!(other.asking_blocks.is_empty());
    assert_eq!(PeerAsking::BlockBodies, other.asking);
}

#[test]
fn bodies_and_receipts_go_to_the_downloader() {
    let (mut sync, mut client) = syncing_setup();
    sync.new_blocks.requests.push(BlockRequest::Bodies { hashes: vec![H256::zero()] });
    sync.sync_peer(&mut client, 1, false, 20);
    let data = headers_packet(&[vec![0xc0]]);
    // Receipts are not what was asked for.
    assert!(sync.on_peer_block_receipts(&mut client, 1, &data, 30).is_ok());
    assert_eq!(0, sync.new_blocks.imported_receipts);
    assert_eq!(PeerAsking::Nothing, sync.peers.get(1).unwrap().asking);

    let (mut sync, mut client) = syncing_setup();
    sync.new_blocks.requests.push(BlockRequest::Bodies { hashes: vec![H256::zero()] });
    sync.sync_peer(&mut client, 1, false, 20);
    assert!(sync.on_peer_block_bodies(&mut client, 1, &data, 30).is_ok());
    assert_eq!(1, sync.new_blocks.imported_bodies);
    assert_eq!(1, sync.new_blocks.collected);

    let (mut sync, mut client) = syncing_setup();
    sync.new_blocks.requests.push(BlockRequest::Receipts { hashes: vec![H256::zero()] });
    sync.sync_peer(&mut client, 1, false, 20);
    // An empty answer is of no use.
    assert!(sync.on_peer_block_receipts(&mut client, 1, &headers_packet(&[]), 30).is_ok());
    assert_eq!(0, sync.new_blocks.imported_receipts);
    sync.new_blocks.requests.push(BlockRequest::Receipts { hashes: vec![H256::zero()] });
    sync.sync_peer(&mut client, 2, false, 20);
    assert!(sync.on_peer_block_receipts(&mut client, 2, &data, 30).is_ok());
    assert_eq!(1, sync.new_blocks.imported_receipts);
    // What cannot be read is an error.
    sync.new_blocks.requests.push(BlockRequest::Receipts { hashes: vec![H256::zero()] });
    sync.active_peers.insert(2, ());
    sync.sync_peer(&mut client, 2, true, 20);
    assert_eq!(PeerAsking::BlockReceipts, sync.peers.get(2).unwrap().asking);
    assert!(sync.on_peer_block_receipts(&mut client, 2, &[0x01], 30).is_err());
}

// The hashes that the peers carry for a request of the given kind, with the
// downloader that they are carried for.
fn carried(sync: &Sync, asking: PeerAsking) -> Vec<(Option<BlockSet>, H256)> {
    let mut all = Vec::new();
    for entry in sync.peers.entries.iter() {
        let p = &entry.value;
        if p.asking == asking {
            if asking == PeerAsking::BlockHeaders {
                all.extend(p.asking_hash.iter().map(|h| (p.block_set, *h)));
            } else {
                all.extend(p.asking_blocks.iter().map(|h| (p.block_set, *h)));
            }
        }
    }
    all
}

fn each_once(all: &[(Option<BlockSet>, H256)]) -> bool {
    (0..all.len()).all(|i| (0..i).all(|j| all[i] != all[j]))
}

#[test]
fn no_two_peers_carry_the_same_request() {
    let (mut sync, mut client) = syncing_setup();
    let hash = |n: u64| H256 { w0: 0, w1: 0, w2: 0, w3: n };
    sync.new_blocks.requests.push(BlockRequest::Bodies { hashes: vec![hash(1), hash(2)] });
    sync.new_blocks.requests.push(BlockRequest::Bodies { hashes: vec![hash(3)] });
    sync.continue_sync(&mut client, 20);
    let bodies = carried(&sync, PeerAsking::BlockBodies);
    assert_eq!(3, bodies.len());
    assert!(each_once(&bodies));
    // An answer frees what the peer was asked for, and it is asked anew.
    sync.new_blocks.requests.push(BlockRequest::Headers { start: hash(9), count: 1, skip: 0 });
    let answered = sync.peers.entries.iter().find(|e| e.value.asking_blocks.len() == 2).unwrap().id;
    assert!(sync.on_peer_block_bodies(&mut client, answered, &headers_packet(&[vec![0xc0]]), 30)
        .is_ok());
    assert_eq!(vec![(Some(BlockSet::NewBlocks), hash(3))], carried(&sync, PeerAsking::BlockBodies));
    assert_eq!(
        vec![(Some(BlockSet::NewBlocks), hash(9))],
        carried(&sync, PeerAsking::BlockHeaders)
    );
    // A new round leaves nothing carried.
    sync.restart(&mut client, 40);
    assert!(carried(&sync, PeerAsking::BlockBodies).is_empty());
    assert!(carried(&sync, PeerAsking::BlockHeaders).is_empty());
    assert!(sync.is_well_formed());
}

#[test]
fn a_bad_block_found_while_collecting_starts_the_sync_over() {
    let (mut sync, mut client) = asked_for_headers();
    sync.new_blocks.collect_result = Err(DownloaderImportError::Invalid);
    sync.new_blocks.last_imported = 3;
    client.add_blocks(5);
    let data = headers_packet(&[client.blocks[3].header.clone()]);
    assert!(sync.on_peer_block_headers(&mut client, 1, &data, 30).is_ok());
    // The downloader was made anew from the best block.
    assert_eq!(15, sync.new_blocks.last_imported);
    assert_eq!(0, sync.new_blocks.imported_headers);
    assert_eq!(SyncState::Idle, sync.state);
}

// ---------------------------------------------------------------------
// Starting over.
// ---------------------------------------------------------------------

#[test]
fn bad_blocks_start_the_sync_over_before_anything_is_asked() {
    let (mut sync, mut client) = asked_for_headers();
    client.add_blocks(1);
    sync.state = SyncState::Idle;
    sync.last_sent_block_number = 10;
    sync.peers.entries[1].value.latest_hash = H256 { w0: 0, w1: 0, w2: 0, w3: 99 };
    sync.new_blocks.requests.push(BlockRequest::Bodies { hashes: vec![H256::zero()] });
    let before = sync.outbox.len();
    let invalid = vec![H256 { w0: 6, w1: 6, w2: 6, w3: 6 }];
    sync.chain_new_blocks(&mut client, &none(), &invalid, &none(), &none(), &none(), &vec![], 50);
    // The request that was in flight is abandoned.
    let first = sync.peers.get(1).unwrap();
    assert!(first.expired);
    assert_eq!(PeerAsking::BlockHeaders, first.asking);
    assert_eq!(None, first.asking_hash);
    // The new downloader has handed out nothing: the script was the old one's.
    assert_eq!(11, sync.new_blocks.last_imported);
    // What was queued is news only; no request.
    let sent = packets(&sync);
    assert!(sent.len() > before);
    for p in &sent[before..] {
        assert!(p.packet_id == 0x01 || p.packet_id == 0x07);
    }
    assert_eq!(SyncState::Idle, sync.state);
    assert!(sync.active_peers.contains_key(1) && sync.active_peers.contains_key(2));
}

#[test]
fn requests_made_after_the_start_over_are_new() {
    let (mut sync, mut client) = asked_for_headers();
    sync.reset_and_continue(&mut client, 60);
    assert!(sync.peers.get(1).unwrap().expired);
    // The late answer is dropped and frees the peer.
    let data = headers_packet(&[client.blocks[3].header.clone()]);
    assert!(sync.on_peer_block_headers(&mut client, 1, &data, 70).is_ok());
    assert_eq!(0, sync.new_blocks.imported_headers);
    assert!(sync.peers.get(1).unwrap().can_sync());
    sync.new_blocks.requests.push(BlockRequest::Bodies { hashes: vec![H256::zero()] });
    sync.restart(&mut client, 80);
    // The downloader is new, so nothing was asked.
    assert_eq!(1, sync.outbox.len());
    assert!(sync.new_blocks.requests.is_empty());
    assert_eq!(1, sync.new_blocks.resets);
}

#[test]
fn aborting_drops_all_peers() {
    let (mut sync, mut client) = asked_for_headers();
    sync.abort(&mut client, 60);
    assert!(sync.peers.is_empty());
    assert_eq!(1, sync.new_blocks.resets);
}

// ---------------------------------------------------------------------
// Timeouts.
// ---------------------------------------------------------------------

fn timeout_case(asking: PeerAsking, limit: u64) {
    let mut client = TestIo::new();
    client.add_blocks(10);
    let mut sync = dummy_sync_with_peer(client.block_hash_delta_minus(5), &client);
    insert_dummy_peer(&mut sync, 1, client.block_hash_delta_minus(5));
    sync.peers.entries[0].value.asking = asking;
    sync.peers.entries[0].value.ask_time = 1000;
    // At the limit the peer stays.
    sync.maintain_peers(&mut client, 1000 + limit);
    assert!(sync.peers.contains_key(0));
    assert_eq!(0, sync.outbox.len());
    // Past it the peer is disconnected and dropped.
    sync.maintain_peers(&mut client, 1001 + limit);
    assert!(!sync.peers.contains_key(0));
    assert!(sync.peers.contains_key(1));
    assert!(matches!(sync.outbox[0], Action::Disconnect { peer: 0 }));
    assert_eq!(1, sync.outbox.len());
}

#[test]
fn requests_time_out() {
    timeout_case(PeerAsking::BlockHeaders, 15_000);
    timeout_case(PeerAsking::BlockBodies, 20_000);
    timeout_case(PeerAsking::BlockReceipts, 10_000);
    timeout_case(PeerAsking::ForkHeader, 3_000);
    timeout_case(PeerAsking::SnapshotManifest, 5_000);
    timeout_case(PeerAsking::SnapshotData, 120_000);
}

#[test]
fn a_peer_that_carries_no_request_does_not_time_out() {
    let mut client = TestIo::new();
    let mut sync = dummy_sync_with_peer(client.block_hash_delta_minus(1), &client);
    sync.maintain_peers(&mut client, u64::MAX);
    assert!(sync.peers.contains_key(0));
    assert!(sync.outbox.is_empty());
}

#[test]
fn greetings_time_out() {
    let mut client = TestIo::new();
    let mut sync = new_sync(config(), &client);
    sync.on_peer_connected(&mut client, 3, 1000);
    sync.maintain_peers(&mut client, 6000);
    assert_eq!(1, sync.outbox.len());
    sync.maintain_peers(&mut client, 6001);
    assert_eq!(2, sync.outbox.len());
    assert!(matches!(sync.outbox[1], Action::Disconnect { peer: 3 }));
    // The peer is forgotten when it has left.
    sync.on_peer_aborting(&mut client, 3, 6002);
    assert!(!sync.handshaking_peers.contains_key(3));
}

#[test]
fn a_peer_that_leaves_is_dropped() {
    let (mut sync, mut client) = asked_for_headers();
    sync.on_peer_aborting(&mut client, 1, 60);
    assert!(!sync.peers.contains_key(1));
    assert!(!sync.active_peers.contains_key(1));
    assert!(sync.peers.contains_key(2));
    // What it was asked for is free again.
    assert_eq!(1, sync.new_blocks.cleared);
    // One that is not known changes nothing.
    sync.on_peer_aborting(&mut client, 9, 60);
    assert_eq!(1, sync.peers.len());
}

// ---------------------------------------------------------------------
// Snapshots.
// ---------------------------------------------------------------------

fn warp_setup(peers: usize) -> (Sync, TestIo, H256) {
    let mut client = TestIo::new();
    client.add_blocks(10);
    client.versions = Some((1, 2));
    let mut config = config();
    config.warp_sync = WarpSync::Enabled;
    let mut sync = new_sync(config, &client);
    assert_eq!(SyncState::WaitingPeers, sync.state);
    let hash = H256 { w0: 8, w1: 8, w2: 8, w3: 8 };
    for id in 1..=peers {
        client.warp.push((id, 1));
        let data = status_packet(&client, 1, 1, Some((hash, 10 + 40_000)));
        assert!(sync.on_peer_status(&mut client, id, &data, 100).is_ok());
    }
    (sync, client, hash)
}

#[test]
fn three_peers_with_the_same_snapshot_start_the_restoration() {
    let (sync, _, _) = warp_setup(2);
    assert_eq!(SyncState::WaitingPeers, sync.state);
    assert_eq!(0, sync.outbox.len());

    let (sync, _, _) = warp_setup(3);
    assert_eq!(SyncState::SnapshotManifest, sync.state);
    let sent = packets(&sync);
    assert_eq!(3, sent.len());
    for (i, p) in sent.iter().enumerate() {
        assert_eq!((i + 1, 0x11), (p.recipient, p.packet_id));
        assert_eq!(vec![0xc0], p.data);
    }
    for entry in &sync.peers.entries {
        assert_eq!(PeerAsking::SnapshotManifest, entry.value.asking);
    }
}

#[test]
fn a_snapshot_too_near_is_not_restored() {
    let mut client = TestIo::new();
    client.add_blocks(10);
    client.versions = Some((1, 2));
    let mut config = config();
    config.warp_sync = WarpSync::Enabled;
    let mut sync = new_sync(config, &client);
    let hash = H256 { w0: 8, w1: 8, w2: 8, w3: 8 };
    for id in 1..=3 {
        client.warp.push((id, 1));
        let data = status_packet(&client, 1, 1, Some((hash, 10 + 30_000)));
        assert!(sync.on_peer_status(&mut client, id, &data, 100).is_ok());
    }
    assert_eq!(SyncState::WaitingPeers, sync.state);
    // When time is up, blocks are downloaded.
    sync.maintain_sync(&mut client, 5100);
    assert_eq!(SyncState::WaitingPeers, sync.state);
    sync.maintain_sync(&mut client, 5101);
    assert_eq!(SyncState::Idle, sync.state);
}

#[test]
fn when_time_is_up_a_snapshot_of_few_peers_will_do() {
    let (mut sync, mut client, _) = warp_setup(1);
    sync.maintain_sync(&mut client, 5101);
    assert_eq!(SyncState::SnapshotManifest, sync.state);
    assert_eq!(1, sync.outbox.len());
}

#[test]
fn a_snapshot_known_to_be_bad_is_not_restored() {
    let mut client = TestIo::new();
    client.add_blocks(10);
    client.versions = Some((1, 2));
    let mut config = config();
    config.warp_sync = WarpSync::OnlyAndAfter(20_000);
    let mut sync = new_sync(config, &client);
    let hash = H256 { w0: 8, w1: 8, w2: 8, w3: 8 };
    sync.snapshot.note_bad(hash);
    for id in 1..=3 {
        client.warp.push((id, 1));
        let data = status_packet(&client, 1, 1, Some((hash, 10 + 40_000)));
        assert!(sync.on_peer_status(&mut client, id, &data, 100).is_ok());
    }
    assert_eq!(SyncState::WaitingPeers, sync.state);
    // Where only a snapshot will do, the wait goes on.
    sync.maintain_sync(&mut client, 9000);
    assert_eq!(SyncState::WaitingPeers, sync.state);
}

fn manifest() -> ManifestData {
    ManifestData {
        version: 2,
        state_hashes: vec![keccak(b"state one"), keccak(b"state two")],
        block_hashes: vec![keccak(b"block one")],
        state_root: H256 { w0: 4, w1: 0, w2: 0, w3: 0 },
        block_number: 40_010,
        block_hash: H256 { w0: 5, w1: 0, w2: 0, w3: 0 },
    }
}

fn manifest_packet(m: &ManifestData) -> Vec<u8> {
    let mut s = rlp::RlpStream::new_list(1);
    s.append_raw(&encode_manifest(m), 1);
    s.out()
}

fn chunk_packet(chunk: &[u8]) -> Vec<u8> {
    let mut s = rlp::RlpStream::new_list(1);
    s.append(&chunk.to_vec());
    s.out()
}

#[test]
fn the_manifest_starts_the_fetching_of_chunks() {
    let (mut sync, mut client, _) = warp_setup(3);
    let m = manifest();
    let raw = encode_manifest(&m);
    // The peers offer the snapshot of this manifest.
    for entry in sync.peers.entries.iter_mut() {
        entry.value.snapshot_hash = Some(keccak(&raw));
    }
    assert!(sync.on_snapshot_manifest(&mut client, 1, &manifest_packet(&m), 200).is_ok());
    assert_eq!(SyncState::SnapshotData, sync.state);
    assert_eq!(1, client.begun);
    assert_eq!(Some(keccak(&raw)), sync.snapshot.snapshot_hash());
    assert_eq!(3, sync.snapshot.total_chunks());
    // The peer that answered is asked for the first block chunk.
    let sent = packets(&sync);
    assert_eq!(4, sent.len());
    assert_eq!((1, 0x13), (sent[3].recipient, sent[3].packet_id));
    let mut expected = rlp::RlpStream::new_list(1);
    expected.append(&eth_hash(&keccak(b"block one")));
    assert_eq!(expected.out(), sent[3].data);
    assert_eq!(Some(keccak(b"block one")), sync.peers.get(1).unwrap().asking_snapshot_data);

    // The chunk goes to the snapshot service, and the next is asked for.
    assert!(sync.on_snapshot_data(&mut client, 1, &chunk_packet(b"block one"), 300).is_ok());
    assert_eq!(vec![keccak(b"block one")], client.block_chunks);
    assert_eq!(1, sync.snapshot.done_chunks());
    let sent = packets(&sync);
    assert_eq!((1, 0x13), (sent[4].recipient, sent[4].packet_id));
    assert_eq!(Some(keccak(b"state one")), sync.peers.get(1).unwrap().asking_snapshot_data);

    // A chunk that is not wanted gets the peer disconnected.
    assert!(sync.on_snapshot_data(&mut client, 1, &chunk_packet(b"no chunk"), 400).is_ok());
    assert!(sync.outbox.iter().any(|a| matches!(a, Action::Disconnect { peer: 1 })));
}

#[test]
fn a_manifest_that_is_not_supported_gets_the_peer_turned_away() {
    let (mut sync, mut client, _) = warp_setup(3);
    let mut m = manifest();
    m.version = 3;
    assert!(sync.on_snapshot_manifest(&mut client, 1, &manifest_packet(&m), 200).is_ok());
    assert!(sync.outbox.iter().any(|a| matches!(a, Action::Disable { peer: 1 })));
    assert_eq!(0, client.begun);
    // One that cannot be read, too.
    assert!(sync.on_snapshot_manifest(&mut client, 2, &chunk_packet(b"no manifest"), 200).is_ok());
    assert!(sync.outbox.iter().any(|a| matches!(a, Action::Disable { peer: 2 })));
    // A packet without an item is an error.
    assert!(sync.on_snapshot_manifest(&mut client, 3, &[0xc0], 200).is_err());
}

#[test]
fn a_failed_restoration_notes_the_snapshot_as_bad() {
    let (mut sync, mut client, _) = warp_setup(3);
    let m = manifest();
    let hash = keccak(&encode_manifest(&m));
    for entry in sync.peers.entries.iter_mut() {
        entry.value.snapshot_hash = Some(hash);
    }
    assert!(sync.on_snapshot_manifest(&mut client, 1, &manifest_packet(&m), 200).is_ok());
    client.restoration = RestorationStatus::Failed;
    assert!(sync.on_snapshot_data(&mut client, 1, &chunk_packet(b"block one"), 300).is_ok());
    assert_eq!(SyncState::WaitingPeers, sync.state);
    assert!(sync.snapshot.is_known_bad(&hash));
    assert_eq!(None, sync.snapshot.snapshot_hash());
    assert!(client.block_chunks.is_empty());
}

#[test]
fn a_restoration_found_failed_at_the_tick_is_noted_as_bad() {
    let (mut sync, mut client, _) = warp_setup(3);
    let m = manifest();
    let hash = keccak(&encode_manifest(&m));
    for entry in sync.peers.entries.iter_mut() {
        entry.value.snapshot_hash = Some(hash);
    }
    assert!(sync.on_snapshot_manifest(&mut client, 1, &manifest_packet(&m), 200).is_ok());
    sync.state = SyncState::SnapshotWaiting;
    client.restoration = RestorationStatus::Failed;
    sync.maintain_sync(&mut client, 400);
    assert_eq!(SyncState::WaitingPeers, sync.state);
    assert!(sync.snapshot.is_known_bad(&hash));
    assert_eq!(None, sync.snapshot.snapshot_hash());
    assert!(sync.is_well_formed());
}

#[test]
fn the_snapshot_service_is_not_run_too_far_ahead() {
    let (mut sync, mut client, _) = warp_setup(3);
    let mut m = manifest();
    m.state_hashes = (0..8u8).map(|i| keccak(&[i])).collect();
    m.block_hashes = vec![];
    let hash = keccak(&encode_manifest(&m));
    for entry in sync.peers.entries.iter_mut() {
        entry.value.snapshot_hash = Some(hash);
    }
    assert!(sync.on_snapshot_manifest(&mut client, 1, &manifest_packet(&m), 200).is_ok());
    for i in 0..4u8 {
        assert_eq!(SyncState::SnapshotData, sync.state);
        let asked = sync.peers.get(1).unwrap().asking_snapshot_data.unwrap();
        let chunk = (0..8u8).find(|c| keccak(&[*c]) == asked).unwrap();
        assert!(sync.on_snapshot_data(&mut client, 1, &chunk_packet(&[chunk]), 300 + i as u64).is_ok());
    }
    // Four chunks wait to be restored: one more than the service is run ahead of.
    assert_eq!(SyncState::SnapshotWaiting, sync.state);
    // Once the service has caught up, chunks are fetched again.
    client.restoration = RestorationStatus::Ongoing { state_chunks_done: 1, block_chunks_done: 0 };
    sync.maintain_sync(&mut client, 400);
    assert_eq!(SyncState::SnapshotData, sync.state);
    // A restoration that has ended ends the wait.
    sync.state = SyncState::SnapshotWaiting;
    client.restoration = RestorationStatus::Inactive;
    sync.maintain_sync(&mut client, 500);
    assert_eq!(SyncState::Idle, sync.state);
}

// ---------------------------------------------------------------------
// Packets and figures.
// ---------------------------------------------------------------------

#[test]
fn packets_go_to_their_handlers() {
    let mut client = TestIo::new();
    client.add_blocks(10);
    let mut sync = new_sync(config(), &client);
    // Anything but a status from a peer that is not registered is dropped.
    assert!(sync.on_packet(&mut client, 1, 0x07, &[], 0).is_ok());
    let status = status_packet(&client, 63, 1, None);
    assert!(sync.on_packet(&mut client, 1, 0x00, &status, 0).is_ok());
    assert!(sync.peers.contains_key(1));
    assert!(sync.on_packet(&mut client, 1, 0x07, &[], 0).is_err());
    assert!(sync.on_packet(&mut client, 1, 0x01, &[], 0).is_ok());
    assert!(sync.on_packet(&mut client, 1, 0x02, &[0x80], 0).is_err());
    // A kind that is not known is dropped.
    assert!(sync.on_packet(&mut client, 1, 0x55, &[], 0).is_ok());
    // A consensus message is passed on.
    assert!(sync.dispatch_packet(&mut client, 1, 0x15, &[9, 9], 0).is_ok());
    assert_eq!(vec![vec![9u8, 9]], client.consensus_messages);
    assert!(sync.dispatch_packet(&mut client, 1, 0x07, &[], 0).is_err());
}

#[test]
fn requests_of_peers_are_answered() {
    let mut client = TestIo::new();
    client.add_blocks(10);
    let mut sync = new_sync(config(), &client);
    // Three headers from block four on, every other one.
    let mut s = rlp::RlpStream::new_list(4);
    s.append(&4u64);
    s.append(&3u64);
    s.append(&1u64);
    s.append(&0u32);
    assert!(sync.dispatch_packet(&mut client, 2, 0x03, &s.out(), 0).is_ok());
    let sent = packets(&sync);
    assert_eq!((2, 0x04), (sent[0].recipient, sent[0].packet_id));
    let expected = headers_packet(&[
        client.blocks[4].header.clone(),
        client.blocks[6].header.clone(),
        client.blocks[8].header.clone(),
    ]);
    assert_eq!(expected, sent[0].data);
    // Downwards from a hash.
    let mut s = rlp::RlpStream::new_list(4);
    s.append(&eth_hash(&client.blocks[3].hash));
    s.append(&600u64);
    s.append(&0u64);
    s.append(&1u32);
    assert!(sync.dispatch_packet(&mut client, 2, 0x03, &s.out(), 0).is_ok());
    let expected = headers_packet(&[
        client.blocks[3].header.clone(),
        client.blocks[2].header.clone(),
        client.blocks[1].header.clone(),
    ]);
    assert_eq!(expected, packets(&sync)[1].data);
    // An unknown hash: an empty answer.
    let mut s = rlp::RlpStream::new_list(4);
    s.append(&eth_hash(&H256 { w0: 9, w1: 9, w2: 9, w3: 9 }));
    s.append(&600u64);
    s.append(&0u64);
    s.append(&1u32);
    assert!(sync.dispatch_packet(&mut client, 2, 0x03, &s.out(), 0).is_ok());
    assert_eq!(vec![0xc0], packets(&sync)[2].data);
    // Bodies: what is missing is passed over.
    let mut s = rlp::RlpStream::new_list(3);
    s.append(&eth_hash(&client.blocks[3].hash));
    s.append(&eth_hash(&H256 { w0: 9, w1: 9, w2: 9, w3: 9 }));
    s.append(&eth_hash(&client.blocks[4].hash));
    let request = s.out();
    assert!(sync.dispatch_packet(&mut client, 2, 0x05, &request, 0).is_ok());
    assert_eq!((0x06, vec![0xc6, 0xc2, 0xc0, 0xc0, 0xc2, 0xc0, 0xc0]), (packets(&sync)[3].packet_id, packets(&sync)[3].data.clone()));
    assert!(sync.dispatch_packet(&mut client, 2, 0x0f, &request, 0).is_ok());
    assert_eq!((0x10, vec![0xc2, 0xc0, 0xc0]), (packets(&sync)[4].packet_id, packets(&sync)[4].data.clone()));
    assert!(sync.dispatch_packet(&mut client, 2, 0x0d, &request, 0).is_ok());
    assert_eq!((0x0e, vec![0xc8, 0x83, 3, 3, 3, 0x83, 4, 4, 4]), (packets(&sync)[5].packet_id, packets(&sync)[5].data.clone()));
    // An empty request gets no answer; one that cannot be read is an error.
    assert!(sync.dispatch_packet(&mut client, 2, 0x05, &[0xc0], 0).is_ok());
    assert_eq!(6, sync.outbox.len());
    assert!(sync.dispatch_packet(&mut client, 2, 0x05, &[0xc1, 0x05], 0).is_err());
    // The snapshot.
    assert!(sync.dispatch_packet(&mut client, 2, 0x11, &[0xc0], 0).is_ok());
    assert_eq!((0x12, vec![0xc0]), (packets(&sync)[6].packet_id, packets(&sync)[6].data.clone()));
    client.manifest = Some(manifest());
    assert!(sync.dispatch_packet(&mut client, 2, 0x11, &[0xc0], 0).is_ok());
    assert_eq!(manifest_packet(&manifest()), packets(&sync)[7].data);
    let mut s = rlp::RlpStream::new_list(1);
    s.append(&eth_hash(&client.blocks[3].hash));
    assert!(sync.dispatch_packet(&mut client, 2, 0x13, &s.out(), 0).is_ok());
    assert_eq!((0x14, vec![0xc0]), (packets(&sync)[8].packet_id, packets(&sync)[8].data.clone()));
}

fn header_request(start: u64, max: u64, skip: u64, reverse: bool) -> Vec<u8> {
    let mut s = rlp::RlpStream::new_list(4);
    s.append(&start);
    s.append(&max);
    s.append(&skip);
    s.append(&(reverse as u32));
    s.out()
}

fn headers_of(client: &TestIo, numbers: &[usize]) -> Vec<u8> {
    let headers: Vec<Vec<u8>> = numbers.iter().map(|n| client.blocks[*n].header.clone()).collect();
    headers_packet(&headers)
}

#[test]
fn headers_are_walked_as_asked() {
    let mut client = TestIo::new();
    client.add_blocks(10);
    let walk = |client: &TestIo, request: Vec<u8>| -> Vec<u8> {
        let answer = return_block_headers(client, &request).unwrap().unwrap();
        assert_eq!(0x04, answer.packet_id);
        answer.data
    };
    // Upwards the walk ends at the best block.
    assert_eq!(headers_of(&client, &[8, 9, 10]), walk(&client, header_request(8, 5, 0, false)));
    assert_eq!(vec![0xc0], walk(&client, header_request(11, 5, 0, false)));
    // Downwards from above the best block it starts there.
    assert_eq!(headers_of(&client, &[10, 9]), walk(&client, header_request(20, 2, 0, true)));
    // It ends where the next step would pass the first block.
    assert_eq!(headers_of(&client, &[3, 1]), walk(&client, header_request(3, 9, 1, true)));
    assert_eq!(headers_of(&client, &[4, 2]), walk(&client, header_request(4, 9, 1, true)));
    assert_eq!(headers_of(&client, &[0]), walk(&client, header_request(0, 9, 0, true)));
    // No more headers than asked for.
    assert_eq!(vec![0xc0], walk(&client, header_request(3, 0, 0, false)));
    assert_eq!(headers_of(&client, &[0, 4, 8]), walk(&client, header_request(0, 3, 3, false)));
    // The longest step there is.
    assert_eq!(headers_of(&client, &[2]), walk(&client, header_request(2, 9, u64::MAX, false)));
    assert_eq!(headers_of(&client, &[2]), walk(&client, header_request(2, 9, u64::MAX, true)));
    // One header by its hash, whatever else is asked.
    let mut s = rlp::RlpStream::new_list(4);
    s.append(&eth_hash(&client.blocks[6].hash));
    s.append(&1u64);
    s.append(&0u64);
    s.append(&1u32);
    assert_eq!(headers_of(&client, &[6]), walk(&client, s.out()));
    // A header that is kept for the fork block stands for the chain's.
    client.fork_headers.push((9, vec![0xc1, 0x09]));
    assert_eq!(
        headers_packet(&[client.blocks[8].header.clone(), vec![0xc1, 0x09]]),
        walk(&client, header_request(8, 2, 0, false))
    );
    // A request that lacks an item cannot be read.
    let mut s = rlp::RlpStream::new_list(3);
    s.append(&1u64);
    s.append(&1u64);
    s.append(&0u64);
    assert!(return_block_headers(&client, &s.out()).is_err());
}

#[test]
fn no_more_is_looked_up_than_an_answer_holds() {
    let mut client = TestIo::new();
    client.add_blocks(300);
    let mut s = rlp::RlpStream::new_list(300);
    for b in client.blocks.iter().take(300) {
        s.append(&eth_hash(&b.hash));
    }
    let request = s.out();
    let bodies = return_block_bodies(&client, &request).unwrap().unwrap();
    assert_eq!(256, item_count(&bodies.data).unwrap());
    let nodes = return_node_data(&client, &request).unwrap().unwrap();
    assert_eq!(300, item_count(&nodes.data).unwrap());
    let receipts = return_receipts(&client, &request).unwrap().unwrap();
    assert_eq!(256, item_count(&receipts.data).unwrap());
    // Receipts end once more than enough bytes of them are found.
    let mut long = vec![0xb9, 0x01, 0xf4];
    long.extend(vec![7u8; 500]);
    client.receipts = long;
    let receipts = return_receipts(&client, &request).unwrap().unwrap();
    assert_eq!(3, item_count(&receipts.data).unwrap());
    // A hash that cannot be read is found only when its turn comes.
    let mut s = rlp::RlpStream::new_list(4);
    for b in client.blocks.iter().take(3) {
        s.append(&eth_hash(&b.hash));
    }
    s.append(&5u64);
    let request = s.out();
    assert!(return_receipts(&client, &request).unwrap().is_some());
    assert!(return_block_bodies(&client, &request).is_err());
    // No list, no answer.
    assert!(return_block_bodies(&client, &[0x05]).unwrap().is_none());
}

#[test]
fn a_chunk_of_the_snapshot_is_handed_out() {
    let mut client = TestIo::new();
    client.chunks.push(vec![1, 2, 3]);
    let mut s = rlp::RlpStream::new_list(1);
    s.append(&eth_hash(&keccak(&[1, 2, 3])));
    let answer = return_snapshot_data(&client, &s.out()).unwrap().unwrap();
    assert_eq!((0x14, vec![0xc4, 0x83, 1, 2, 3]), (answer.packet_id, answer.data));
    assert!(return_snapshot_data(&client, &[0xc0]).is_err());
    // A request for the manifest holds nothing.
    assert!(return_snapshot_manifest(&client, &[0xc1, 0x01]).unwrap().is_none());
}

#[test]
fn the_status_tells_the_figures() {
    let (mut sync, mut client) = asked_for_headers();
    sync.highest_block = Some(50);
    sync.new_blocks.last_imported = 30;
    sync.peers.insert(5, dummy_peer(63, H256::zero()));
    sync.peers.entries[2].value.confirmation = ForkConfirmation::Unconfirmed;
    let status = sync.status();
    assert_eq!(SyncState::Blocks, status.state);
    assert_eq!(63, status.protocol_version);
    assert_eq!(1, status.network_id);
    assert_eq!(10, status.start_block_number);
    assert_eq!(Some(30), status.last_imported_block_number);
    assert_eq!(None, status.last_imported_old_block_number);
    assert_eq!(Some(50), status.highest_block_number);
    assert_eq!(40, status.blocks_total);
    assert_eq!(20, status.blocks_received);
    assert_eq!(2, status.num_peers);
    assert_eq!(1, status.num_active_peers);
    assert_eq!(64, status.mem_used);
    assert_eq!(0, status.num_snapshot_chunks);
    assert_eq!(0, status.snapshot_chunks_done);
    assert!(status.is_syncing(client.queue_info()));
    assert!(!status.is_snapshot_syncing());
    // Of a peer.
    let digest = sync.peer_info(1).unwrap();
    assert_eq!(63, digest.version);
    assert_eq!(H256 { w0: 5, w1: 5, w2: 5, w3: 5 }, digest.head);
    assert_eq!(Some(U256::from_u64(1_000_000_000)), digest.difficulty);
    assert!(sync.peer_info(77).is_none());
    // The actions are handed out once.
    assert_eq!(1, sync.take_actions().len());
    assert_eq!(0, sync.take_actions().len());
    sync.continue_sync(&mut client, 0);
}

#[test]
fn the_first_state_follows_the_options() {
    let mut client = TestIo::new();
    client.add_blocks(10);
    let mut config = config();
    assert_eq!(SyncState::Idle, new_sync(config, &client).state);
    config.warp_sync = WarpSync::Enabled;
    assert_eq!(SyncState::WaitingPeers, new_sync(config, &client).state);
    config.warp_sync = WarpSync::OnlyAndAfter(10);
    assert_eq!(SyncState::Idle, new_sync(config, &client).state);
    config.warp_sync = WarpSync::OnlyAndAfter(11);
    assert_eq!(SyncState::WaitingPeers, new_sync(config, &client).state);
}

// ---------------------------------------------------------------------
// What is done about an answer from outside.
// ---------------------------------------------------------------------

#[test]
fn the_answer_of_the_chain_client_is_followed() {
    let client = TestIo::new();
    let fresh = |state: SyncState| {
        let mut sync = dummy_sync_with_peer(H256::zero(), &client);
        sync.state = state;
        sync
    };
    let mut sync = fresh(SyncState::Idle);
    assert!(sync.follow_import(0, ImportResult::UnknownParent));
    assert_eq!(SyncState::NewBlocks, sync.state);
    assert!(sync.outbox.is_empty());
    for state in [SyncState::Blocks, SyncState::NewBlocks, SyncState::Waiting] {
        let mut sync = fresh(state);
        assert!(!sync.follow_import(0, ImportResult::UnknownParent));
        assert_eq!(state, sync.state);
        assert!(sync.outbox.is_empty());
    }
    let mut sync = fresh(SyncState::Idle);
    assert!(!sync.follow_import(0, ImportResult::Bad));
    assert_eq!(SyncState::Idle, sync.state);
    assert_eq!(1, sync.outbox.len());
    assert!(matches!(sync.outbox[0], Action::Disable { peer: 0 }));
    for result in [ImportResult::Queued, ImportResult::AlreadyInChain, ImportResult::AlreadyQueued]
    {
        let mut sync = fresh(SyncState::Idle);
        assert!(!sync.follow_import(0, result));
        assert_eq!(SyncState::Idle, sync.state);
        assert!(sync.outbox.is_empty());
    }
}

#[test]
fn the_verdict_of_a_downloader_is_followed() {
    let (sync, _) = asked_for_headers();
    let mut useless = sync;
    useless.apply_verdict(1, BlockSet::NewBlocks, Err(DownloaderImportError::Useless));
    assert!(!useless.active_peers.contains_key(1));
    assert!(useless.active_peers.contains_key(2));
    assert_eq!(1, useless.outbox.len());

    let (mut invalid, _) = asked_for_headers();
    invalid.apply_verdict(1, BlockSet::NewBlocks, Err(DownloaderImportError::Invalid));
    assert!(!invalid.active_peers.contains_key(1));
    assert_eq!(2, invalid.outbox.len());
    assert!(matches!(invalid.outbox[1], Action::Disable { peer: 1 }));

    let (mut reset, _) = asked_for_headers();
    reset.apply_verdict(2, BlockSet::NewBlocks, Ok(DownloadAction::Reset));
    let asked = reset.peers.get(1).unwrap();
    assert!(asked.expired);
    assert_eq!(None, asked.asking_hash);
    assert!(reset.active_peers.contains_key(1));
    assert_eq!(1, reset.outbox.len());

    let (mut proceed, _) = asked_for_headers();
    proceed.apply_verdict(1, BlockSet::NewBlocks, Ok(DownloadAction::Proceed));
    assert!(!proceed.peers.get(1).unwrap().expired);
    assert!(proceed.active_peers.contains_key(1));
    assert_eq!(1, proceed.outbox.len());
    // A round of the other downloader that starts over leaves the request.
    proceed.apply_verdict(1, BlockSet::OldBlocks, Ok(DownloadAction::Reset));
    assert!(!proceed.peers.get(1).unwrap().expired);
}

fn gathering(highest: Option<u64>) -> Gathering {
    Gathering { highest, head: H256::zero(), max_height: 0, hashes: Vec::new(), ended: None }
}

#[test]
fn announced_hashes_are_looked_at_one_by_one() {
    let h = |n: u64| H256 { w0: n, w1: 0, w2: 0, w3: 0 };
    let entry = |n: u64| Announced { hash: Some(h(n)), number: Some(n) };
    // One that is to be fetched.
    let mut g = gathering(Some(5));
    gather_one(&mut g, &entry(9), false, BlockStatus::Unknown, 0);
    assert_eq!((Some(9), h(9), 9, vec![h(9)], None), (g.highest, g.head, g.max_height, g.hashes.clone(), g.ended));
    // A lower one is fetched too, and the head stays.
    gather_one(&mut g, &entry(7), false, BlockStatus::Pending, 0);
    assert_eq!((Some(9), h(9), 9, vec![h(9), h(7)]), (g.highest, g.head, g.max_height, g.hashes.clone()));
    // One that is being fetched, one that is too old, one that is there.
    gather_one(&mut g, &entry(12), true, BlockStatus::Unknown, 0);
    gather_one(&mut g, &entry(13), false, BlockStatus::Unknown, 34);
    gather_one(&mut g, &entry(14), false, BlockStatus::InChain, 0);
    gather_one(&mut g, &entry(15), false, BlockStatus::Queued, 0);
    assert_eq!((Some(15), h(9), 9, 2, None), (g.highest, g.head, g.max_height, g.hashes.len(), g.ended));
    // Twenty behind is not too old.
    gather_one(&mut g, &entry(13), false, BlockStatus::Unknown, 33);
    assert_eq!((h(13), 13, 3), (g.head, g.max_height, g.hashes.len()));
    // A bad one ends it, and nothing comes after.
    gather_one(&mut g, &entry(20), false, BlockStatus::Bad, 0);
    assert_eq!((Some(20), Some(false), 3), (g.highest, g.ended, g.hashes.len()));
    gather_one(&mut g, &entry(30), false, BlockStatus::Unknown, 0);
    assert_eq!((Some(20), Some(false), 3), (g.highest, g.ended, g.hashes.len()));
    // One that cannot be read ends it with an error.
    let mut g = gathering(None);
    gather_one(&mut g, &Announced { hash: Some(h(1)), number: None }, false, BlockStatus::Unknown, 0);
    assert_eq!((None, Some(true), 0), (g.highest, g.ended, g.hashes.len()));
    let mut g = gathering(None);
    gather_one(&mut g, &Announced { hash: None, number: Some(3) }, false, BlockStatus::Unknown, 0);
    assert_eq!(Some(true), g.ended);
}

#[test]
fn what_was_gathered_is_done() {
    let client = TestIo::new();
    let h = |n: u64| H256 { w0: n, w1: 0, w2: 0, w3: 0 };
    let mut sync = dummy_sync_with_peer(H256::zero(), &client);
    let g = Gathering { highest: Some(9), head: h(9), max_height: 9, hashes: vec![h(9), h(7)], ended: None };
    assert_eq!(Some(vec![h(9), h(7)]), sync.apply_gathered(0, g));
    assert_eq!(SyncState::NewBlocks, sync.state);
    assert_eq!(Some(9), sync.highest_block);
    assert_eq!(h(9), sync.peers.get(0).unwrap().latest_hash);
    assert_eq!(None, sync.peers.get(0).unwrap().difficulty);
    assert!(sync.outbox.is_empty());
    // Nothing to fetch.
    let mut sync = dummy_sync_with_peer(H256::zero(), &client);
    assert_eq!(None, sync.apply_gathered(0, gathering(Some(4))));
    assert_eq!(SyncState::Idle, sync.state);
    assert_eq!(Some(4), sync.highest_block);
    // A bad block: the peer is turned away and nothing is fetched.
    let mut sync = dummy_sync_with_peer(H256::zero(), &client);
    let g = Gathering { highest: None, head: h(9), max_height: 9, hashes: vec![h(9)], ended: Some(false) };
    assert_eq!(None, sync.apply_gathered(0, g));
    assert_eq!(SyncState::Idle, sync.state);
    assert!(matches!(sync.outbox[0], Action::Disable { peer: 0 }));
    // An error: nobody is turned away.
    let mut sync = dummy_sync_with_peer(H256::zero(), &client);
    let g = Gathering { highest: None, head: h(9), max_height: 9, hashes: vec![h(9)], ended: Some(true) };
    assert_eq!(None, sync.apply_gathered(0, g));
    assert!(sync.outbox.is_empty());
    assert_eq!(h(9), sync.peers.get(0).unwrap().latest_hash);
}

#[test]
fn a_new_round_gives_the_difficulty_of_the_chain() {
    let client = TestIo::new();
    let mut sync = dummy_sync_with_peer(H256::zero(), &client);
    insert_dummy_peer(&mut sync, 1, H256::zero());
    insert_dummy_peer(&mut sync, 2, H256::zero());
    sync.peers.entries[0].value.difficulty = None;
    sync.peers.entries[1].value.difficulty = Some(U256::from_u64(5));
    sync.peers.entries[2].value.difficulty = None;
    sync.peers.entries[2].value.block_set = Some(BlockSet::OldBlocks);
    sync.state = SyncState::Blocks;
    sync.start_round(U256::from_u64(77));
    assert_eq!(Some(U256::from_u64(77)), sync.peers.get(0).unwrap().difficulty);
    assert_eq!(Some(U256::from_u64(5)), sync.peers.get(1).unwrap().difficulty);
    assert_eq!(None, sync.peers.get(2).unwrap().difficulty);
    assert_eq!(SyncState::Idle, sync.state);
    assert_eq!(0, sync.new_blocks.resets);
    assert!(sync.active_peers.contains_key(2));
}

#[test]
fn the_verdict_on_collected_blocks() {
    assert!(Sync::must_restart(Err(DownloaderImportError::Invalid)));
    assert!(!Sync::must_restart(Err(DownloaderImportError::Useless)));
    assert!(!Sync::must_restart(Ok(())));
    let mut client = TestIo::new();
    client.add_blocks(10);
    let mut info = client.chain_info();
    info.ancient_block_hash = Some(client.blocks[2].hash);
    info.ancient_block_number = Some(2);
    let mut sync: Sync = ChainSync::new(config(), &info, random::new());
    sync.retire_old_blocks(false);
    assert!(sync.old_blocks.is_some());
    sync.retire_old_blocks(true);
    assert!(sync.old_blocks.is_none());
}

#[test]
fn a_packet_of_transactions_holds_what_was_picked() {
    let txs: Vec<PendingTransaction> = (0..70u8).map(|i| transaction(i, false)).collect();
    let all = chain_sync::transactions::hashes_of(&txs);
    let mut peer = dummy_peer(63, H256::zero());
    // No more than the most for one packet, the first ones.
    let first = announce_to(&mut peer, &txs, &all).unwrap();
    assert_eq!(64, first.hashes.len());
    let mut expected = rlp::RlpStream::new_list(64);
    for tx in txs.iter().take(64) {
        expected.append_raw(&tx.raw, 1);
    }
    assert_eq!(expected.out(), first.packet);
    assert_eq!(txs.iter().take(64).map(|t| t.hash).collect::<Vec<_>>(), first.hashes);
    // Then the rest.
    let second = announce_to(&mut peer, &txs, &all).unwrap();
    let mut expected = rlp::RlpStream::new_list(6);
    for tx in txs.iter().skip(64) {
        expected.append_raw(&tx.raw, 1);
    }
    assert_eq!(expected.out(), second.packet);
    assert_eq!(70, peer.last_sent_transactions.len());
    assert!(announce_to(&mut peer, &txs, &all).is_none());
    // Nothing for no transactions.
    let mut fresh = dummy_peer(63, H256::zero());
    assert!(announce_to(&mut fresh, &vec![], &HashList::new()).is_none());
}

#[test]
fn a_packet_of_transactions_holds_one_class() {
    let mut client = TestIo::new();
    client.transactions.push(transaction(1, false));
    client.transactions.push(transaction(2, true));
    client.transactions.push(transaction(3, false));
    let mut sync = new_sync(config(), &client);
    insert_dummy_peer(&mut sync, 1, client.block_hash_delta_minus(1));
    client.clients.push((1, b"Parity/v1.6".to_vec()));
    assert_eq!(2, sync.propagate_new_transactions(&mut client));
    let sent = packets(&sync);
    let mut paid = rlp::RlpStream::new_list(2);
    paid.append_raw(&transaction(1, false).raw, 1);
    paid.append_raw(&transaction(3, false).raw, 1);
    let mut free = rlp::RlpStream::new_list(1);
    free.append_raw(&transaction(2, true).raw, 1);
    assert_eq!((1, 0x02, paid.out()), (sent[0].recipient, sent[0].packet_id, sent[0].data.clone()));
    assert_eq!((1, 0x02, free.out()), (sent[1].recipient, sent[1].packet_id, sent[1].data.clone()));
}

#[test]
fn each_sealed_block_goes_to_every_peer_in_turn() {
    let mut client = TestIo::new();
    client.add_blocks(10);
    let mut sync = dummy_sync_with_peer(client.block_hash_delta_minus(5), &client);
    insert_dummy_peer(&mut sync, 1, client.block_hash_delta_minus(4));
    let info = client.chain_info();
    let blocks = vec![client.blocks[9].hash, H256 { w0: 9, w1: 9, w2: 9, w3: 9 }, client.blocks[10].hash];
    assert_eq!(2, sync.propagate_blocks(&info, &mut client, &blocks, &vec![0, 1]));
    let sent = packets(&sync);
    // The block that the chain client does not hand out goes to nobody.
    assert_eq!(4, sent.len());
    let announcement = |i: usize| {
        let mut s = rlp::RlpStream::new_list(2);
        s.append_raw(&client.blocks[i].bytes, 1);
        let d = client.blocks[i].total_difficulty;
        s.append(&ethereum_types::U256([d.l0, d.l1, d.l2, d.l3]));
        s.out()
    };
    assert_eq!((0, 0x07, announcement(9)), (sent[0].recipient, sent[0].packet_id, sent[0].data.clone()));
    assert_eq!((1, announcement(9)), (sent[1].recipient, sent[1].data.clone()));
    assert_eq!((0, announcement(10)), (sent[2].recipient, sent[2].data.clone()));
    assert_eq!((1, announcement(10)), (sent[3].recipient, sent[3].data.clone()));
    assert_eq!(info.best_block_hash, sync.peers.get(0).unwrap().latest_hash);
    assert_eq!(info.best_block_hash, sync.peers.get(1).unwrap().latest_hash);
}
