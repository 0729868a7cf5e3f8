use chain_sync::env::ManifestData;
use chain_sync::hashing::keccak;
use chain_sync::primitives::H256;
use chain_sync::snapshot::{ChunkType, Snapshot, UnwantedChunk};

fn manifest() -> ManifestData {
    ManifestData {
        version: 2,
        state_hashes: vec![keccak(b"state one"), keccak(b"state two")],
        block_hashes: vec![keccak(b"block one"), keccak(b"block two")],
        state_root: H256::zero(),
        block_number: 50_000,
        block_hash: H256::zero(),
    }
}

fn restoring() -> Snapshot {
    let mut snapshot = Snapshot::new();
    snapshot.reset_to(&manifest(), &keccak(b"manifest"));
    snapshot
}

#[test]
fn a_new_downloader_has_nothing_to_fetch() {
    let mut snapshot = Snapshot::new();
    assert!(!snapshot.have_manifest());
    assert_eq!(None, snapshot.snapshot_hash());
    assert_eq!(0, snapshot.total_chunks());
    assert_eq!(0, snapshot.done_chunks());
    assert!(snapshot.is_complete());
    assert_eq!(None, snapshot.needed_chunk());
    assert_eq!(Err(UnwantedChunk), snapshot.validate_chunk(b"block one"));
}

#[test]
fn the_manifest_lists_the_chunks() {
    let snapshot = restoring();
    assert!(snapshot.have_manifest());
    assert_eq!(Some(keccak(b"manifest")), snapshot.snapshot_hash());
    assert_eq!(4, snapshot.total_chunks());
    assert_eq!(0, snapshot.done_chunks());
    assert!(!snapshot.is_complete());
}

#[test]
fn block_chunks_are_asked_for_first() {
    let mut snapshot = restoring();
    assert_eq!(Some(keccak(b"block one")), snapshot.needed_chunk());
    assert_eq!(Some(keccak(b"block two")), snapshot.needed_chunk());
    assert_eq!(Some(keccak(b"state one")), snapshot.needed_chunk());
    assert_eq!(Some(keccak(b"state two")), snapshot.needed_chunk());
    assert_eq!(None, snapshot.needed_chunk());
    // A chunk that is no longer being fetched is asked for again.
    snapshot.clear_chunk_download(&keccak(b"state one"));
    assert_eq!(Some(keccak(b"state one")), snapshot.needed_chunk());
    assert_eq!(None, snapshot.needed_chunk());
}

#[test]
fn chunks_are_told_apart() {
    let mut snapshot = restoring();
    assert_eq!(Ok(ChunkType::State(keccak(b"state two"))), snapshot.validate_chunk(b"state two"));
    assert_eq!(Ok(ChunkType::Block(keccak(b"block one"))), snapshot.validate_chunk(b"block one"));
    assert_eq!(2, snapshot.done_chunks());
    // One that has arrived is not taken again.
    assert_eq!(Err(UnwantedChunk), snapshot.validate_chunk(b"block one"));
    // Nor one that the manifest does not list.
    assert_eq!(Err(UnwantedChunk), snapshot.validate_chunk(b"block three"));
    assert_eq!(2, snapshot.done_chunks());
    // What has arrived is not asked for.
    assert_eq!(Some(keccak(b"block two")), snapshot.needed_chunk());
    assert_eq!(Some(keccak(b"state one")), snapshot.needed_chunk());
    assert_eq!(None, snapshot.needed_chunk());
    assert_eq!(Ok(ChunkType::Block(keccak(b"block two"))), snapshot.validate_chunk(b"block two"));
    assert!(!snapshot.is_complete());
    assert_eq!(Ok(ChunkType::State(keccak(b"state one"))), snapshot.validate_chunk(b"state one"));
    assert!(snapshot.is_complete());
}

#[test]
fn a_chunk_that_arrives_is_fetched_no_longer() {
    let mut snapshot = restoring();
    assert_eq!(Some(keccak(b"block one")), snapshot.needed_chunk());
    assert_eq!(Err(UnwantedChunk), snapshot.validate_chunk(b"nothing"));
    assert_eq!(Ok(ChunkType::Block(keccak(b"block one"))), snapshot.validate_chunk(b"block one"));
    assert!(snapshot.downloading_chunks.is_empty());
}

#[test]
fn bad_snapshots_are_remembered() {
    let mut snapshot = restoring();
    assert!(!snapshot.is_known_bad(&keccak(b"manifest")));
    snapshot.note_bad(keccak(b"manifest"));
    snapshot.note_bad(keccak(b"manifest"));
    assert!(snapshot.is_known_bad(&keccak(b"manifest")));
    assert_eq!(1, snapshot.bad_hashes.len());
    snapshot.clear();
    assert!(snapshot.is_known_bad(&keccak(b"manifest")));
    assert!(!snapshot.have_manifest());
    assert_eq!(0, snapshot.total_chunks());
    snapshot.reset_to(&manifest(), &keccak(b"other"));
    assert!(snapshot.is_known_bad(&keccak(b"manifest")));
    assert!(!snapshot.is_known_bad(&keccak(b"other")));
}
