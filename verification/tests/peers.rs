use chain_sync::client_id::accepts_service_transaction;
use chain_sync::config::{SyncConfig, WarpSync};
use chain_sync::env::BlockQueueInfo;
use chain_sync::hash_list::HashList;
use chain_sync::order::sync_order;
use chain_sync::peer::{timeout_of, BlockSet, ForkConfirmation, PeerAsking, PeerInfo};
use chain_sync::peer_map::PeerMap;
use chain_sync::primitives::{PeerId, H256, U256};
use chain_sync::propagator::{
    get_consensus_peers, get_private_transaction_peers, propagation_width, select_random_peers,
};
use chain_sync::random::{self, RandomSource};
use chain_sync::status::{SyncState, SyncStatus};
use chain_sync::transactions::is_lucky;
use chain_sync::warp::{best_snapshot, snapshot_choice, wait_is_over, SnapshotChoice, SnapshotQuery};

fn peer(version: u8) -> PeerInfo {
    PeerInfo {
        protocol_version: version,
        genesis: H256::zero(),
        network_id: 0,
        latest_hash: H256::zero(),
        difficulty: Some(U256::from_u64(3)),
        asking: PeerAsking::Nothing,
        asking_blocks: Vec::new(),
        asking_hash: None,
        ask_time: 0,
        last_sent_transactions: HashList::new(),
        expired: false,
        confirmation: ForkConfirmation::Confirmed,
        snapshot_number: None,
        snapshot_hash: None,
        asking_snapshot_data: None,
        block_set: None,
    }
}

#[test]
fn who_can_be_sent_requests_and_who_counts() {
    let mut p = peer(63);
    assert!(p.can_sync() && p.is_allowed());
    p.confirmation = ForkConfirmation::TooShort;
    assert!(!p.can_sync() && p.is_allowed());
    p.confirmation = ForkConfirmation::Unconfirmed;
    assert!(!p.can_sync() && !p.is_allowed());
    p.confirmation = ForkConfirmation::Confirmed;
    p.expired = true;
    assert!(!p.can_sync() && !p.is_allowed());
}

#[test]
fn a_request_in_flight_expires_when_it_is_forgotten() {
    let mut p = peer(63);
    p.asking = PeerAsking::BlockBodies;
    p.asking_blocks = vec![H256::zero()];
    p.asking_hash = Some(H256::zero());
    p.block_set = Some(BlockSet::NewBlocks);
    p.reset_asking();
    assert!(p.expired);
    assert!(p.asking_blocks.is_empty());
    assert_eq!(None, p.asking_hash);
    assert_eq!(PeerAsking::BlockBodies, p.asking);
    assert_eq!(Some(BlockSet::NewBlocks), p.block_set);
    // Expiry is sticky.
    p.reset_asking();
    assert!(p.expired);
    // A peer that carries nothing does not expire.
    let mut p = peer(63);
    p.reset_asking();
    assert!(!p.expired);
    // Nor one that has not shown the fork block.
    let mut p = peer(63);
    p.asking = PeerAsking::ForkHeader;
    p.confirmation = ForkConfirmation::Unconfirmed;
    p.reset_asking();
    assert!(!p.expired);
}

#[test]
fn each_kind_of_request_has_its_time() {
    assert_eq!(None, timeout_of(PeerAsking::Nothing));
    assert_eq!(Some(3_000), timeout_of(PeerAsking::ForkHeader));
    assert_eq!(Some(15_000), timeout_of(PeerAsking::BlockHeaders));
    assert_eq!(Some(20_000), timeout_of(PeerAsking::BlockBodies));
    assert_eq!(Some(10_000), timeout_of(PeerAsking::BlockReceipts));
    assert_eq!(Some(5_000), timeout_of(PeerAsking::SnapshotManifest));
    assert_eq!(Some(120_000), timeout_of(PeerAsking::SnapshotData));
    let mut p = peer(63);
    p.asking = PeerAsking::BlockReceipts;
    p.ask_time = 500;
    assert!(!p.timed_out(10_500));
    assert!(p.timed_out(10_501));
    // A clock that lags is no timeout.
    assert!(!p.timed_out(100));
}

#[test]
fn the_map_of_peers_keeps_their_order() {
    let mut map: PeerMap<u32> = PeerMap::new();
    assert!(map.is_empty());
    map.insert(7, 70);
    map.insert(3, 30);
    map.insert(7, 71);
    assert_eq!(2, map.len());
    assert_eq!(Some(0), map.index_of(7));
    assert_eq!(Some(&71), map.get(7));
    assert_eq!(Some(&30), map.get(3));
    assert_eq!(None, map.get(4));
    assert!(map.contains_key(3) && !map.contains_key(4));
    assert!(!map.remove(4));
    assert!(map.remove(7));
    assert_eq!(Some(0), map.index_of(3));
    map.clear();
    assert!(map.is_empty());
}

#[test]
fn the_set_of_hashes_holds_each_once() {
    let a = H256 { w0: 1, w1: 0, w2: 0, w3: 0 };
    let b = H256 { w0: 2, w1: 0, w2: 0, w3: 0 };
    let mut set = HashList::new();
    assert!(set.insert(a));
    assert!(!set.insert(a));
    assert!(set.insert(b));
    assert_eq!(2, set.len());
    assert!(set.contains(&a));
    assert!(set.remove(&a));
    assert!(!set.remove(&a));
    assert!(!set.contains(&a) && set.contains(&b));
    set.clear();
    assert!(set.is_empty());
}

#[test]
fn the_width_is_the_rounded_root_within_bounds() {
    for n in 0..=20 {
        assert_eq!(4, propagation_width(n));
    }
    assert_eq!(5, propagation_width(21));
    assert_eq!(5, propagation_width(30));
    assert_eq!(6, propagation_width(31));
    assert_eq!(10, propagation_width(100));
    assert_eq!(10, propagation_width(110));
    assert_eq!(11, propagation_width(111));
    assert_eq!(100, propagation_width(10_000));
    assert_eq!(127, propagation_width(16_256));
    assert_eq!(128, propagation_width(16_257));
    assert_eq!(128, propagation_width(usize::MAX));
    for n in 21usize..2000 {
        let exact = (n as f64).sqrt().round() as usize;
        assert_eq!(exact.max(4).min(128), propagation_width(n));
    }
}

#[test]
fn as_many_peers_are_picked_as_the_width_says() {
    let mut random = random::new();
    for n in [0usize, 1, 3, 4, 5, 20, 21, 100, 400] {
        let peers: Vec<PeerId> = (0..n).map(|i| i * 3).collect();
        let picked = select_random_peers(&mut random, &peers);
        assert_eq!(n.min(propagation_width(n)), picked.len());
        let mut seen = picked.clone();
        seen.sort();
        seen.dedup();
        assert_eq!(picked.len(), seen.len());
        assert!(picked.iter().all(|p| peers.contains(p)));
    }
    let peers: Vec<PeerId> = (0..100).collect();
    assert_ne!(peers[..10].to_vec(), select_random_peers(&mut random, &peers));
}

#[test]
fn the_random_source_keeps_to_its_bounds() {
    let mut random = RandomSource::from_seed([9, 8, 7, 6]);
    assert_eq!(None, random.below(0));
    for bound in 1..50usize {
        assert!(random.below(bound).unwrap() < bound);
    }
    let mut items: Vec<PeerId> = (0..40).collect();
    random.shuffle(&mut items);
    assert_ne!((0..40).collect::<Vec<PeerId>>(), items);
    items.sort();
    assert_eq!((0..40).collect::<Vec<PeerId>>(), items);
    // A seed of zeros will do as well.
    let mut zero = RandomSource::from_seed([0, 0, 0, 0]);
    let mut fixed = random::new();
    assert_eq!(fixed.next_u32(), zero.next_u32());
    assert_ne!(fixed.next_u32(), fixed.next_u32());
}

#[test]
fn the_luck_of_the_draw() {
    assert!(is_lucky(0, 4));
    assert!(is_lucky(2_147_483_646, 4));
    assert!(!is_lucky(2_147_483_647, 4));
    assert!(is_lucky(u32::MAX - 1, 1));
    assert!(!is_lucky(u32::MAX, 1));
    assert!(is_lucky(429_496_728, 100));
    assert!(!is_lucky(429_496_729, 100));
    assert!(is_lucky(u32::MAX, 0));
}

#[test]
fn peers_are_offered_work_in_order_of_version() {
    let mut peers: PeerMap<PeerInfo> = PeerMap::new();
    for (id, version) in [(1usize, 63u8), (2, 1), (3, 62), (4, 63), (5, 2), (6, 62)] {
        peers.insert(id, peer(version));
    }
    peers.entries[3].value.expired = true;
    let mut random = random::new();
    let order = sync_order(&peers, &mut random);
    assert_eq!(5, order.len());
    assert_eq!(2, order[0]);
    assert_eq!(5, order[1]);
    assert!(order[2..4].contains(&3) && order[2..4].contains(&6));
    assert_eq!(1, order[4]);
}

#[test]
fn peers_by_the_version_they_speak() {
    let mut peers: PeerMap<PeerInfo> = PeerMap::new();
    for (id, version) in [(1usize, 63u8), (2, 1), (3, 2), (4, 3)] {
        peers.insert(id, peer(version));
    }
    assert_eq!(vec![1, 3, 4], get_consensus_peers(&peers));
    assert_eq!(vec![1, 4], get_private_transaction_peers(&peers));
}

#[test]
fn client_names_that_take_service_transactions() {
    assert!(accepts_service_transaction(b"Parity/v1.6"));
    assert!(accepts_service_transaction(b"Parity/v1.6.0"));
    assert!(accepts_service_transaction(b"Parity/v1.7.3-ABCDEFGH"));
    assert!(accepts_service_transaction(b"Parity/v2.0"));
    assert!(accepts_service_transaction(b"Parity/v+1.+6.x"));
    assert!(accepts_service_transaction(b"Parity/v01.0006"));
    assert!(accepts_service_transaction(b"Parity/v4294967295.0"));
    assert!(!accepts_service_transaction(b"Parity/v4294967296.0"));
    assert!(!accepts_service_transaction(b"Parity/v1.5"));
    assert!(!accepts_service_transaction(b"Parity/v0.9"));
    assert!(!accepts_service_transaction(b"Parity/v1.6-beta"));
    assert!(!accepts_service_transaction(b"Parity/v2"));
    assert!(!accepts_service_transaction(b"Parity/v1."));
    assert!(!accepts_service_transaction(b"Parity/v.6"));
    assert!(!accepts_service_transaction(b"Parity/v1.+"));
    assert!(!accepts_service_transaction(b"Parity/v-1.6"));
    assert!(!accepts_service_transaction(b"Parity/1.6"));
    assert!(!accepts_service_transaction(b"parity/v1.6"));
    assert!(!accepts_service_transaction(b"Geth"));
    assert!(!accepts_service_transaction(b""));
}

#[test]
fn the_options() {
    let config = SyncConfig::default();
    assert!(config.download_old_blocks);
    assert_eq!(1, config.network_id);
    assert!(config.fork_block.is_none());
    assert_eq!(WarpSync::Disabled, config.warp_sync);
    assert!(!WarpSync::Disabled.is_enabled());
    assert!(WarpSync::Enabled.is_enabled() && !WarpSync::Enabled.is_warp_only());
    assert!(WarpSync::OnlyAndAfter(5).is_enabled() && WarpSync::OnlyAndAfter(5).is_warp_only());
    assert_eq!(5, WarpSync::OnlyAndAfter(5).expected_block());
    assert_eq!(0, WarpSync::Enabled.expected_block());
}

#[test]
fn the_fill_of_the_queue() {
    let mut queue = BlockQueueInfo {
        unverified_queue_size: 400,
        verified_queue_size: 300,
        verifying_queue_size: 300,
        max_queue_size: 1000,
        max_mem_use: 1000,
        mem_used: 1000,
    };
    assert!(!queue.is_full() && !queue.is_empty());
    queue.verifying_queue_size = 301;
    assert!(queue.is_full());
    queue.verifying_queue_size = 0;
    queue.mem_used = 1001;
    assert!(queue.is_full());
    queue.unverified_queue_size = 0;
    queue.verified_queue_size = 0;
    assert!(queue.is_empty());
    queue.unverified_queue_size = usize::MAX;
    queue.verified_queue_size = usize::MAX;
    assert!(queue.is_full());
}

fn status(state: SyncState, num_peers: usize) -> SyncStatus {
    SyncStatus {
        state,
        protocol_version: 0,
        network_id: 0,
        start_block_number: 0,
        last_imported_block_number: None,
        highest_block_number: None,
        blocks_total: 0,
        blocks_received: 0,
        num_peers,
        num_active_peers: 0,
        mem_used: 0,
        num_snapshot_chunks: 0,
        snapshot_chunks_done: 0,
        last_imported_old_block_number: None,
    }
}

#[test]
fn the_status_knows_what_goes_on() {
    assert!(status(SyncState::SnapshotManifest, 0).is_snapshot_syncing());
    assert!(status(SyncState::SnapshotData, 0).is_snapshot_syncing());
    assert!(status(SyncState::SnapshotWaiting, 0).is_snapshot_syncing());
    assert!(!status(SyncState::WaitingPeers, 0).is_snapshot_syncing());
    assert!(!status(SyncState::Blocks, 0).is_snapshot_syncing());
    assert_eq!(25, status(SyncState::Idle, 25).current_max_peers(25, 50));
    assert_eq!(50, status(SyncState::Idle, 26).current_max_peers(25, 50));
    let queue = BlockQueueInfo {
        unverified_queue_size: usize::MAX,
        verified_queue_size: 1,
        verifying_queue_size: 0,
        max_queue_size: 0,
        max_mem_use: 0,
        mem_used: 0,
    };
    assert!(status(SyncState::NewBlocks, 0).is_syncing(queue));
    assert!(status(SyncState::Waiting, 0).is_syncing(BlockQueueInfo { unverified_queue_size: 0, ..queue }));
    assert!(!status(SyncState::NewBlocks, 0).is_syncing(BlockQueueInfo { unverified_queue_size: 2, ..queue }));
}

fn offering(hash: u64, number: u64) -> PeerInfo {
    let mut p = peer(1);
    p.snapshot_hash = Some(H256 { w0: hash, w1: 0, w2: 0, w3: 0 });
    p.snapshot_number = Some(number);
    p
}

#[test]
fn the_snapshot_of_most_peers_is_picked() {
    let query = SnapshotQuery { our_best: 100, fork_block: 0, expected_warp_block: 0, highest: None };
    let bad = HashList::new();
    let mut peers: PeerMap<PeerInfo> = PeerMap::new();
    assert_eq!((None, vec![]), best_snapshot(&peers, &query, &bad));
    peers.insert(1, offering(7, 50_000));
    peers.insert(2, offering(8, 50_000));
    peers.insert(3, offering(8, 50_000));
    peers.insert(4, offering(9, 30_100));
    peers.insert(5, offering(7, 50_000));
    peers.insert(6, offering(8, 50_000));
    peers.entries[5].value.confirmation = ForkConfirmation::Unconfirmed;
    let (best, supporters) = best_snapshot(&peers, &query, &bad);
    assert_eq!(Some(H256 { w0: 7, w1: 0, w2: 0, w3: 0 }), best);
    assert_eq!(vec![1, 5], supporters);
    peers.entries[5].value.confirmation = ForkConfirmation::TooShort;
    let (best, supporters) = best_snapshot(&peers, &query, &bad);
    assert_eq!(Some(H256 { w0: 8, w1: 0, w2: 0, w3: 0 }), best);
    assert_eq!(vec![2, 3, 6], supporters);
    let mut bad = HashList::new();
    bad.insert(H256 { w0: 8, w1: 0, w2: 0, w3: 0 });
    assert_eq!(vec![1, 5], best_snapshot(&peers, &query, &bad).1);
}

#[test]
fn a_snapshot_must_be_far_enough_ahead() {
    let mut query = SnapshotQuery { our_best: 100, fork_block: 0, expected_warp_block: 0, highest: None };
    assert!(!query.accepts(30_100));
    assert!(query.accepts(30_101));
    assert!(!query.accepts(50));
    query.fork_block = 40_000;
    assert!(!query.accepts(40_000));
    assert!(query.accepts(40_001));
    query.expected_warp_block = 45_000;
    assert!(!query.accepts(45_000));
    assert!(query.accepts(45_001));
    query.highest = Some(80_000);
    assert!(!query.accepts(49_999));
    assert!(query.accepts(50_000));
    assert!(query.accepts(80_000));
    assert!(!query.accepts(80_001));
}

#[test]
fn what_is_done_about_snapshots() {
    assert_eq!(SnapshotChoice::Start, snapshot_choice(true, 3, false, false));
    assert_eq!(SnapshotChoice::Wait, snapshot_choice(true, 2, false, false));
    assert_eq!(SnapshotChoice::Start, snapshot_choice(true, 1, true, true));
    assert_eq!(SnapshotChoice::FullSync, snapshot_choice(false, 0, true, false));
    assert_eq!(SnapshotChoice::Wait, snapshot_choice(false, 0, true, true));
    assert_eq!(SnapshotChoice::Wait, snapshot_choice(false, 0, false, false));
    assert!(!wait_is_over(SyncState::WaitingPeers, None, 1_000_000));
    assert!(!wait_is_over(SyncState::WaitingPeers, Some(1000), 6000));
    assert!(wait_is_over(SyncState::WaitingPeers, Some(1000), 6001));
    assert!(!wait_is_over(SyncState::Blocks, Some(1000), 6001));
}
