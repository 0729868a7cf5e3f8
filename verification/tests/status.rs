use chain_sync::env::BlockQueueInfo;
use chain_sync::status::{SyncState, SyncStatus};

fn queue_info(unverified: usize, verified: usize) -> BlockQueueInfo {
    BlockQueueInfo {
        unverified_queue_size: unverified,
        verified_queue_size: verified,
        verifying_queue_size: 0,
        max_queue_size: 1000,
        max_mem_use: 1000,
        mem_used: 500,
    }
}

fn sync_status(state: SyncState) -> SyncStatus {
    SyncStatus {
        state,
        protocol_version: 0,
        network_id: 0,
        start_block_number: 0,
        last_imported_block_number: None,
        highest_block_number: None,
        blocks_total: 0,
        blocks_received: 0,
        num_peers: 0,
        num_active_peers: 0,
        mem_used: 0,
        num_snapshot_chunks: 0,
        snapshot_chunks_done: 0,
        last_imported_old_block_number: None,
    }
}

#[test]
fn is_still_verifying() {
    assert!(!sync_status(SyncState::Idle).is_syncing(queue_info(2, 1)));
    assert!(sync_status(SyncState::Idle).is_syncing(queue_info(2, 2)));
}

#[test]
fn is_synced_state() {
    assert!(sync_status(SyncState::Blocks).is_syncing(queue_info(0, 0)));
    assert!(!sync_status(SyncState::Idle).is_syncing(queue_info(0, 0)));
}
