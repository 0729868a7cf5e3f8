//! The snapshot downloader: which chunks of a snapshot are wanted, which are
//! being fetched and which have arrived, and which snapshots turned out bad.

use vstd::prelude::*;
use crate::env::ManifestData;
use crate::hash_list::{find_hash, HashList};
use crate::hashing::{keccak, keccak_of};
use crate::primitives::H256;

verus! {

/// The kind of a chunk that arrived, with its hash.
#[derive(Clone, Copy, Debug, PartialEq, Eq, Structural)]
pub enum ChunkType {
    State(H256),
    Block(H256),
}

/// A chunk that arrived is not wanted: it is not part of the snapshot, or it
/// has arrived before.
#[derive(Clone, Copy, Debug, PartialEq, Eq, Structural)]
pub struct UnwantedChunk;

/// The state of a snapshot download.
#[derive(Debug)]
pub struct Snapshot {
    pub pending_state_chunks: Vec<H256>,
    pub pending_block_chunks: Vec<H256>,
    pub downloading_chunks: HashList,
    pub completed_chunks: HashList,
    /// Hash of the manifest of the snapshot being fetched.
    pub snapshot_hash: Option<H256>,
    /// Manifests of snapshots that failed to restore.
    pub bad_hashes: HashList,
}

/// A copy of a sequence of hashes.
pub fn copy_hashes(v: &Vec<H256>) -> (r: Vec<H256>)
    ensures
        r@ == v@,
{
    let mut r: Vec<H256> = Vec::new();
    let mut i: usize = 0;
    while i < v.len()
        invariant
            i <= v@.len(),
            r@ == v@.subrange(0, i as int),
        decreases v@.len() - i,
    {
        r.push(v[i]);
        assert(r@ =~= v@.subrange(0, i + 1));
        i += 1;
    }
    assert(v@.subrange(0, v@.len() as int) =~= v@);
    r
}

impl Snapshot {
    pub open spec fn wf(&self) -> bool {
        &&& self.downloading_chunks.wf()
        &&& self.completed_chunks.wf()
        &&& self.bad_hashes.wf()
    }

    /// Whether a chunk is neither being fetched nor there.
    pub open spec fn is_needed(&self, hash: H256) -> bool {
        !self.downloading_chunks.has(hash) && !self.completed_chunks.has(hash)
    }

    /// Whether `hash` is the first needed hash of `pending`.
    pub open spec fn first_needed(&self, pending: Seq<H256>, hash: H256) -> bool {
        exists|i: int|
            0 <= i < pending.len() && pending[i] == hash && self.is_needed(hash) && forall|k: int|
                0 <= k < i ==> !self.is_needed(#[trigger] pending[k])
    }

    /// Whether no hash of `pending` is needed.
    pub open spec fn none_needed(&self, pending: Seq<H256>) -> bool {
        forall|k: int| 0 <= k < pending.len() ==> !self.is_needed(#[trigger] pending[k])
    }

    /// The chunk to ask for next: the first needed block chunk, or the first
    /// needed state chunk where no block chunk is needed.
    pub open spec fn is_next_needed(&self, r: Option<H256>) -> bool {
        match r {
            Some(hash) => self.first_needed(self.pending_block_chunks@, hash) || (
            self.none_needed(self.pending_block_chunks@) && self.first_needed(
                self.pending_state_chunks@,
                hash,
            )),
            None => self.none_needed(self.pending_block_chunks@) && self.none_needed(
                self.pending_state_chunks@,
            ),
        }
    }

    pub open spec fn spec_total_chunks(&self) -> nat {
        self.pending_block_chunks@.len() + self.pending_state_chunks@.len()
    }

    /// What `validate_chunk` answers for a chunk with the given hash.
    pub open spec fn chunk_kind(&self, hash: H256) -> Result<ChunkType, UnwantedChunk> {
        if self.completed_chunks.has(hash) {
            Err(UnwantedChunk)
        } else if self.pending_block_chunks@.contains(hash) {
            Ok(ChunkType::Block(hash))
        } else if self.pending_state_chunks@.contains(hash) {
            Ok(ChunkType::State(hash))
        } else {
            Err(UnwantedChunk)
        }
    }

    /// Whether the downloader is well formed.
    pub fn is_well_formed(&self) -> (r: bool)
        ensures
            r == self.wf(),
    {
        self.downloading_chunks.is_well_formed() && self.completed_chunks.is_well_formed()
            && self.bad_hashes.is_well_formed()
    }

    /// A downloader with no snapshot to fetch.
    pub fn new() -> (r: Snapshot)
        ensures
            r.wf(),
            r.snapshot_hash is None,
            r.spec_total_chunks() == 0,
            r.completed_chunks.items@.len() == 0,
            r.downloading_chunks.items@.len() == 0,
            r.bad_hashes.items@.len() == 0,
    {
        Snapshot {
            pending_state_chunks: Vec::new(),
            pending_block_chunks: Vec::new(),
            downloading_chunks: HashList::new(),
            completed_chunks: HashList::new(),
            snapshot_hash: None,
            bad_hashes: HashList::new(),
        }
    }

    /// Forgets the snapshot being fetched; the bad snapshots are remembered.
    pub fn clear(&mut self)
        requires
            old(self).wf(),
        ensures
            final(self).wf(),
            final(self).snapshot_hash is None,
            final(self).spec_total_chunks() == 0,
            final(self).completed_chunks.items@.len() == 0,
            final(self).downloading_chunks.items@.len() == 0,
            final(self).bad_hashes == old(self).bad_hashes,
    {
        self.pending_state_chunks.clear();
        self.pending_block_chunks.clear();
        self.downloading_chunks.clear();
        self.completed_chunks.clear();
        self.snapshot_hash = None;
    }

    /// Whether a snapshot is being fetched.
    pub fn have_manifest(&self) -> (r: bool)
        ensures
            r == self.snapshot_hash is Some,
    {
        self.snapshot_hash.is_some()
    }

    /// Starts over with the chunks that the manifest lists.
    pub fn reset_to(&mut self, manifest: &ManifestData, hash: &H256)
        requires
            old(self).wf(),
        ensures
            final(self).wf(),
            final(self).snapshot_hash == Some(*hash),
            final(self).pending_state_chunks@ == manifest.state_hashes@,
            final(self).pending_block_chunks@ == manifest.block_hashes@,
            final(self).completed_chunks.items@.len() == 0,
            final(self).downloading_chunks.items@.len() == 0,
            final(self).bad_hashes == old(self).bad_hashes,
    {
        self.clear();
        self.pending_state_chunks = copy_hashes(&manifest.state_hashes);
        self.pending_block_chunks = copy_hashes(&manifest.block_hashes);
        self.snapshot_hash = Some(*hash);
    }

    /// Takes a chunk that arrived.  A chunk of the snapshot that has not
    /// arrived before is noted as there and its kind is told; any other is
    /// refused.  A chunk that is not refused at once for having arrived
    /// before is no longer being fetched.
    pub fn validate_chunk(&mut self, chunk: &[u8]) -> (r: Result<ChunkType, UnwantedChunk>)
        requires
            old(self).wf(),
        ensures
            final(self).wf(),
            r == old(self).chunk_kind(keccak_of(chunk@)),
            final(self).pending_state_chunks == old(self).pending_state_chunks,
            final(self).pending_block_chunks == old(self).pending_block_chunks,
            final(self).snapshot_hash == old(self).snapshot_hash,
            final(self).bad_hashes == old(self).bad_hashes,
            forall|h: H256|
                final(self).completed_chunks.has(h) == (old(self).completed_chunks.has(h)
                    || (r is Ok
                    && h == keccak_of(chunk@))),
            forall|h: H256|
                final(self).downloading_chunks.has(h) == (old(self).downloading_chunks.has(h) && (h
                    != keccak_of(chunk@) || old(self).completed_chunks.has(h))),
            final(self).completed_chunks.items@.len() == old(self).completed_chunks.items@.len()
                + if r is Ok { 1int } else { 0int },
    {
        let hash = keccak(chunk);
        if self.completed_chunks.contains(&hash) {
            return Err(UnwantedChunk);
        }
        let _ = self.downloading_chunks.remove(&hash);
        if find_hash(&self.pending_block_chunks, &hash).is_some() {
            let _ = self.completed_chunks.insert(hash);
            return Ok(ChunkType::Block(hash));
        }
        if find_hash(&self.pending_state_chunks, &hash).is_some() {
            let _ = self.completed_chunks.insert(hash);
            return Ok(ChunkType::State(hash));
        }
        Err(UnwantedChunk)
    }

    /// The first needed hash of `pending`, if any.
    fn first_needed_of(&self, pending: &Vec<H256>) -> (r: Option<H256>)
        ensures
            match r {
                Some(hash) => self.first_needed(pending@, hash),
                None => self.none_needed(pending@),
            },
    {
        let mut i: usize = 0;
        while i < pending.len()
            invariant
                i <= pending@.len(),
                forall|k: int| 0 <= k < i ==> !self.is_needed(#[trigger] pending@[k]),
            decreases pending@.len() - i,
        {
            let h = pending[i];
            if !self.downloading_chunks.contains(&h) && !self.completed_chunks.contains(&h) {
                return Some(h);
            }
            i += 1;
        }
        None
    }

    /// Picks the chunk to ask for next and notes it as being fetched.
    pub fn needed_chunk(&mut self) -> (r: Option<H256>)
        requires
            old(self).wf(),
        ensures
            final(self).wf(),
            old(self).is_next_needed(r),
            r is None ==> *final(self) == *old(self),
            forall|h: H256|
                final(self).downloading_chunks.has(h) == (old(self).downloading_chunks.has(h)
                    || r == Some(h)),
            final(self).pending_state_chunks == old(self).pending_state_chunks,
            final(self).pending_block_chunks == old(self).pending_block_chunks,
            final(self).completed_chunks == old(self).completed_chunks,
            final(self).snapshot_hash == old(self).snapshot_hash,
            final(self).bad_hashes == old(self).bad_hashes,
    {
        let block = self.first_needed_of(&self.pending_block_chunks);
        let chunk = match block {
            Some(h) => Some(h),
            None => self.first_needed_of(&self.pending_state_chunks),
        };
        if let Some(hash) = chunk {
            let _ = self.downloading_chunks.insert(hash);
        }
        chunk
    }

    /// Notes that a chunk is no longer being fetched.
    pub fn clear_chunk_download(&mut self, hash: &H256)
        requires
            old(self).wf(),
        ensures
            final(self).wf(),
            forall|h: H256|
                final(self).downloading_chunks.has(h) == (old(self).downloading_chunks.has(h) && h
                    != *hash),
            final(self).pending_state_chunks == old(self).pending_state_chunks,
            final(self).pending_block_chunks == old(self).pending_block_chunks,
            final(self).completed_chunks == old(self).completed_chunks,
            final(self).snapshot_hash == old(self).snapshot_hash,
            final(self).bad_hashes == old(self).bad_hashes,
    {
        let _ = self.downloading_chunks.remove(hash);
    }

    /// Notes a snapshot as bad.
    pub fn note_bad(&mut self, hash: H256)
        requires
            old(self).wf(),
        ensures
            final(self).wf(),
            forall|h: H256| final(self).bad_hashes.has(h) == (old(self).bad_hashes.has(h) || h
                == hash),
            final(self).pending_state_chunks == old(self).pending_state_chunks,
            final(self).pending_block_chunks == old(self).pending_block_chunks,
            final(self).completed_chunks == old(self).completed_chunks,
            final(self).downloading_chunks == old(self).downloading_chunks,
            final(self).snapshot_hash == old(self).snapshot_hash,
    {
        let _ = self.bad_hashes.insert(hash);
    }

    /// Whether a snapshot was noted as bad.
    pub fn is_known_bad(&self, hash: &H256) -> (r: bool)
        ensures
            r == self.bad_hashes.has(*hash),
    {
        self.bad_hashes.contains(hash)
    }

    /// Hash of the manifest of the snapshot being fetched.
    pub fn snapshot_hash(&self) -> (r: Option<H256>)
        ensures
            r == self.snapshot_hash,
    {
        self.snapshot_hash
    }

    /// The number of chunks of the snapshot; the largest number there is
    /// where the true one does not fit.
    pub fn total_chunks(&self) -> (r: usize)
        ensures
            r == if self.spec_total_chunks() <= usize::MAX {
                self.spec_total_chunks() as int
            } else {
                usize::MAX as int
            },
    {
        let a: usize = self.pending_block_chunks.len();
        let b: usize = self.pending_state_chunks.len();
        if a > usize::MAX - b {
            usize::MAX
        } else {
            a + b
        }
    }

    /// The number of chunks that have arrived.
    pub fn done_chunks(&self) -> (r: usize)
        ensures
            r == self.completed_chunks.items@.len(),
    {
        self.completed_chunks.len()
    }

    /// Whether as many chunks have arrived as the snapshot has.
    pub fn is_complete(&self) -> (r: bool)
        ensures
            r == (self.spec_total_chunks() == self.completed_chunks.items@.len()),
    {
        let total: u128 = self.pending_block_chunks.len() as u128
            + self.pending_state_chunks.len() as u128;
        total == self.completed_chunks.len() as u128
    }
}

} // verus!
