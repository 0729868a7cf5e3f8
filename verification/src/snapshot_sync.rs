//! Answers to requests for a snapshot: its manifest and its chunks.

use vstd::prelude::*;
use crate::action::Action;
use crate::chain_sync::{
    follows,
    lemma_follows_trans,
    lemma_progress_refl,
    lemma_progress_trans,
    progresses,
    ChainSync,
};
use crate::codec::{bytes_at, decoded_bytes_at, decoded_item_at, item_at, PacketDecodeError};
use crate::env::{BlockDownloader, RestorationStatus, SyncIo};
use crate::hashing::{keccak, keccak_of};
use crate::manifest::{decode_manifest, decoded_manifest};
use crate::peer::PeerAsking;
use crate::primitives::{H256, PeerId, Timestamp};
use crate::snapshot::ChunkType;
use crate::status::SyncState;

verus! {

/// Whether the snapshot service restores manifests of the given version.
pub open spec fn spec_version_supported(range: Option<(u64, u64)>, version: u64) -> bool {
    match range {
        Some((low, high)) => low <= version <= high,
        None => false,
    }
}

pub fn version_supported(range: Option<(u64, u64)>, version: u64) -> (r: bool)
    ensures
        r == spec_version_supported(range, version),
{
    match range {
        Some((low, high)) => version >= low && version <= high,
        None => false,
    }
}

impl<D: BlockDownloader> ChainSync<D> {
    /// Whether a manifest from the given peer is looked into: the peer can
    /// be sent requests and was asked for it, and a manifest is waited for.
    pub open spec fn expects_manifest(&self, peer_id: PeerId) -> bool {
        self.can_sync(peer_id) && self.peer(peer_id).asking == PeerAsking::SnapshotManifest
            && self.state == SyncState::SnapshotManifest
    }

    /// Whether a chunk from the given peer is looked into: the peer can be
    /// sent requests and was asked for it, and chunks are being fetched or
    /// restored.
    pub open spec fn expects_chunk(&self, peer_id: PeerId) -> bool {
        self.can_sync(peer_id) && self.peer(peer_id).asking == PeerAsking::SnapshotData && (
        self.state == SyncState::SnapshotData || self.state == SyncState::SnapshotWaiting)
    }

    /// Whether `m` is this synchroniser after the manifest `raw` that a peer
    /// sent was looked into, where the snapshot service restores the
    /// versions in `range`: the peer that sent a manifest that cannot be read
    /// or restored is not talked to again; else the chunks that the manifest
    /// lists are to be fetched and chunks are waited for.
    pub open spec fn manifest_applied(
        &self,
        m: Self,
        peer_id: PeerId,
        raw: Seq<u8>,
        range: Option<(u64, u64)>,
    ) -> bool {
        match decoded_manifest(raw) {
            Some(manifest) if spec_version_supported(range, manifest.version) => {
                &&& m == (ChainSync {
                    state: SyncState::SnapshotData,
                    snapshot: m.snapshot,
                    ..*self
                })
                &&& m.snapshot.wf()
                &&& m.snapshot.snapshot_hash == Some(keccak_of(raw))
                &&& m.snapshot.pending_state_chunks@ == manifest.state_hashes
                &&& m.snapshot.pending_block_chunks@ == manifest.block_hashes
                &&& m.snapshot.completed_chunks.items@.len() == 0
                &&& m.snapshot.downloading_chunks.items@.len() == 0
                &&& m.snapshot.bad_hashes == self.snapshot.bad_hashes
            },
            _ => m == (ChainSync { outbox: m.outbox, ..*self }) && m.outbox@
                == self.outbox@.push(Action::Disable { peer: peer_id }),
        }
    }

    /// Whether `n` is this synchroniser after a manifest from the given
    /// peer was taken: the answer was noted (`first`); a manifest that was
    /// expected was looked into (`mid`); then work was handed out.
    pub open spec fn manifest_taken(
        &self,
        first: Self,
        mid: Self,
        n: Self,
        peer_id: PeerId,
        data: Seq<u8>,
        range: Option<(u64, u64)>,
        now: Timestamp,
    ) -> bool {
        &&& self.answer_taken(first, peer_id)
        &&& if self.expects_manifest(peer_id) {
            decoded_item_at(data, 0) is Some && first.manifest_applied(
                mid,
                peer_id,
                decoded_item_at(data, 0)->0,
                range,
            )
        } else {
            mid == first
        }
        &&& progresses(mid, n)
        &&& if self.expects_manifest(peer_id) && mid.state == SyncState::SnapshotData {
            exists|offered: Self| #[trigger] mid.offered_on(offered, n, peer_id, now)
        } else {
            mid.goes_on(n, now)
        }
    }

    /// Whether `n` is this synchroniser after the manifest that a peer sent
    /// was dealt with, with `r` as the outcome.
    pub open spec fn handles_manifest(
        &self,
        n: Self,
        peer_id: PeerId,
        data: Seq<u8>,
        now: Timestamp,
        r: Result<(), PacketDecodeError>,
    ) -> bool {
        &&& progresses(*self, n)
        &&& !self.can_sync(peer_id) ==> n == *self
        &&& r is Err <==> self.expects_manifest(peer_id) && decoded_item_at(data, 0) is None
        &&& r is Err ==> self.answer_taken(n, peer_id)
        &&& self.can_sync(peer_id) && r is Ok ==> exists|
            first: Self,
            mid: Self,
            range: Option<(u64, u64)>,
        | #[trigger] self.manifest_taken(first, mid, n, peer_id, data, range, now)
    }

    /// Takes the manifest of a snapshot that a peer sent.  Nothing is done
    /// for a peer that cannot be sent requests.  A manifest that is not
    /// expected is dropped.  One that cannot be read, or of a version that
    /// the snapshot service does not restore, gets the peer turned away.
    /// Else the chunks that it lists are to be fetched and the restoration
    /// begins.  In the end work is handed out.
    pub fn on_snapshot_manifest<I: SyncIo>(
        &mut self,
        io: &mut I,
        peer_id: PeerId,
        data: &[u8],
        now: Timestamp,
    ) -> (r: Result<(), PacketDecodeError>)
        requires
            old(self).wf(),
        ensures
            old(self).handles_manifest(*final(self), peer_id, data@, now, r),
    {
        proof {
            lemma_progress_refl(*old(self));
        }
        if !self.peer_can_sync(peer_id) {
            return Ok(());
        }
        self.clear_peer_download(peer_id);
        let ghost g0 = *self;
        let matched = self.reset_peer_asking(peer_id, PeerAsking::SnapshotManifest);
        let ghost first = *self;
        proof {
            lemma_progress_trans(*old(self), g0, first);
            assert(old(self).answer_taken(first, peer_id));
        }
        if !matched || self.state != SyncState::SnapshotManifest {
            self.continue_sync(io, now);
            proof {
                lemma_progress_trans(*old(self), first, *self);
                assert(old(self).manifest_taken(first, first, *self, peer_id, data@, None, now));
            }
            return Ok(());
        }
        let manifest_rlp = item_at(data, 0)?;
        let range = io.supported_versions();
        let accepted = match decode_manifest(manifest_rlp) {
            Ok(manifest) => if version_supported(range, manifest.version) {
                Some(manifest)
            } else {
                None
            },
            Err(_) => None,
        };
        let taken = accepted.is_some();
        match accepted {
            Some(manifest) => {
                let hash = keccak(manifest_rlp);
                self.snapshot.reset_to(&manifest, &hash);
                io.begin_restore(manifest);
                self.state = SyncState::SnapshotData;
            },
            None => {
                self.queue(Action::Disable { peer: peer_id });
            },
        }
        let ghost mid = *self;
        proof {
            assert(first.manifest_applied(mid, peer_id, manifest_rlp@, range));
            assert(progresses(first, mid));
            lemma_progress_trans(*old(self), first, mid);
        }
        if taken {
            self.sync_peer(io, peer_id, false, now);
        }
        let ghost g4 = *self;
        proof {
            lemma_progress_refl(mid);
            lemma_progress_trans(*old(self), mid, g4);
            lemma_progress_trans(mid, mid, g4);
        }
        self.continue_sync(io, now);
        proof {
            lemma_progress_trans(*old(self), g4, *self);
            lemma_progress_trans(mid, g4, *self);
            if taken {
                assert(mid.offered_on(g4, *self, peer_id, now));
            }
            assert(old(self).manifest_taken(first, mid, *self, peer_id, data@, range, now));
        }
        Ok(())
    }

    /// Whether `m` is this synchroniser after the restoration of the
    /// snapshot ended without all of it restored.
    pub open spec fn restoration_ended(&self, m: Self, failed: bool) -> bool {
        &&& m == (ChainSync { state: SyncState::WaitingPeers, snapshot: m.snapshot, ..*self })
        &&& m.snapshot.wf()
        &&& m.snapshot.snapshot_hash is None
        &&& m.snapshot.spec_total_chunks() == 0
        &&& forall|h: H256|
            m.snapshot.bad_hashes.has(h) == (self.snapshot.bad_hashes.has(h) || (failed
                && self.snapshot.snapshot_hash == Some(h)))
    }

    /// Whether `m` is this synchroniser after the given chunk that a peer
    /// sent was looked into: a chunk that is wanted is noted as there, and
    /// once all are there, the end of the restoration is waited for; for
    /// one that is not wanted the peer is disconnected.
    pub open spec fn chunk_applied(&self, m: Self, peer_id: PeerId, chunk: Seq<u8>) -> bool {
        let hash = keccak_of(chunk);
        let kind = self.snapshot.chunk_kind(hash);
        &&& m == (ChainSync { state: m.state, snapshot: m.snapshot, outbox: m.outbox, ..*self })
        &&& m.snapshot.wf()
        &&& m.snapshot.pending_state_chunks == self.snapshot.pending_state_chunks
        &&& m.snapshot.pending_block_chunks == self.snapshot.pending_block_chunks
        &&& m.snapshot.snapshot_hash == self.snapshot.snapshot_hash
        &&& m.snapshot.bad_hashes == self.snapshot.bad_hashes
        &&& forall|h: H256|
            m.snapshot.completed_chunks.has(h) == (self.snapshot.completed_chunks.has(h) || (
            kind is Ok && h == hash))
        &&& m.snapshot.completed_chunks.items@.len() == self.snapshot.completed_chunks.items@.len()
            + if kind is Ok {
            1int
        } else {
            0int
        }
        &&& m.outbox@ == if kind is Ok {
            self.outbox@
        } else {
            self.outbox@.push(Action::Disconnect { peer: peer_id })
        }
        &&& m.state == if kind is Ok && m.snapshot.spec_total_chunks()
            == m.snapshot.completed_chunks.items@.len() {
            SyncState::SnapshotWaiting
        } else {
            self.state
        }
    }

    /// Whether `n` is this synchroniser after a chunk from the given peer
    /// was taken, where the snapshot service told `status`: the answer was
    /// noted (`first`); a chunk that was expected was looked into, unless
    /// the restoration has ended (`mid`); then work was handed out.  With a
    /// chunk that is looked into and cannot be read, the answer is noted
    /// and that is all.
    pub open spec fn chunk_taken(
        &self,
        first: Self,
        mid: Self,
        n: Self,
        peer_id: PeerId,
        data: Seq<u8>,
        status: RestorationStatus,
        now: Timestamp,
    ) -> bool {
        &&& self.answer_taken(first, peer_id)
        &&& if self.chunk_failed(peer_id, data, status) {
            mid == first && n == first
        } else {
            &&& if !self.expects_chunk(peer_id) {
                mid == first
            } else if status is Ongoing {
                first.chunk_applied(mid, peer_id, decoded_bytes_at(data, 0)->0)
            } else {
                first.restoration_ended(mid, status is Failed)
            }
            &&& follows(mid, n)
            &&& mid.state != SyncState::WaitingPeers ==> n.state != SyncState::WaitingPeers
            &&& if self.expects_chunk(peer_id) && status is Ongoing && first.snapshot.chunk_kind(
                keccak_of(decoded_bytes_at(data, 0)->0),
            ) is Ok {
                exists|offered: Self| #[trigger] mid.offered_on(offered, n, peer_id, now)
            } else {
                mid.goes_on(n, now)
            }
        }
    }

    /// Whether a chunk from the given peer is looked into and cannot be
    /// read: it is expected and the restoration goes on.
    pub open spec fn chunk_failed(&self, peer_id: PeerId, data: Seq<u8>, status: RestorationStatus)
        -> bool {
        self.expects_chunk(peer_id) && status is Ongoing && decoded_bytes_at(data, 0) is None
    }

    /// Notes that the restoration of the snapshot has ended without all of
    /// it restored: peers with a snapshot are waited for again, a snapshot
    /// that failed to restore is noted as bad, and what was fetched is
    /// forgotten.
    pub fn end_restoration(&mut self, failed: bool)
        requires
            old(self).wf(),
        ensures
            follows(*old(self), *final(self)),
            old(self).restoration_ended(*final(self), failed),
    {
        self.state = SyncState::WaitingPeers;
        if failed {
            if let Some(hash) = self.snapshot.snapshot_hash() {
                self.snapshot.note_bad(hash);
            }
        }
        self.snapshot.clear();
        proof {
            crate::relations::lemma_evolves_refl(
                self.peers.entries@,
                self.outbox@,
                self.outbox@.len() as int,
            );
        }
    }

    /// Whether `n` is this synchroniser after the chunk that a peer sent was
    /// dealt with, with `r` as the outcome.
    pub open spec fn handles_chunk(
        &self,
        n: Self,
        peer_id: PeerId,
        data: Seq<u8>,
        now: Timestamp,
        r: Result<(), PacketDecodeError>,
    ) -> bool {
        &&& follows(*self, n)
        &&& !self.can_sync(peer_id) ==> r is Ok && n == *self
        &&& !self.expects_chunk(peer_id) ==> r is Ok && progresses(*self, n)
        &&& r is Err ==> decoded_bytes_at(data, 0) is None && self.expects_chunk(peer_id)
        &&& self.can_sync(peer_id) ==> exists|
            first: Self,
            mid: Self,
            status: RestorationStatus,
        |
            #[trigger] self.chunk_taken(first, mid, n, peer_id, data, status, now) && (r is Err
                <==> self.chunk_failed(peer_id, data, status))
    }

    /// Takes a chunk of the snapshot that a peer sent.  Nothing is done for
    /// a peer that cannot be sent requests.  A chunk that is not expected is
    /// dropped.  Where the restoration has ended, see `end_restoration`.
    /// Else a chunk that is wanted goes to the snapshot service and one that
    /// is not gets the peer disconnected; once all chunks are there, the
    /// end of the restoration is waited for.  In the end work is handed out.
    pub fn on_snapshot_data<I: SyncIo>(
        &mut self,
        io: &mut I,
        peer_id: PeerId,
        data: &[u8],
        now: Timestamp,
    ) -> (r: Result<(), PacketDecodeError>)
        requires
            old(self).wf(),
        ensures
            old(self).handles_chunk(*final(self), peer_id, data@, now, r),
    {
        proof {
            lemma_progress_refl(*old(self));
        }
        if !self.peer_can_sync(peer_id) {
            return Ok(());
        }
        self.clear_peer_download(peer_id);
        let ghost g0 = *self;
        let matched = self.reset_peer_asking(peer_id, PeerAsking::SnapshotData);
        let ghost first = *self;
        proof {
            lemma_progress_trans(*old(self), g0, first);
            assert(old(self).answer_taken(first, peer_id));
        }
        if !matched || (self.state != SyncState::SnapshotData && self.state
            != SyncState::SnapshotWaiting) {
            self.continue_sync(io, now);
            proof {
                lemma_progress_trans(*old(self), first, *self);
                assert(old(self).chunk_taken(
                    first,
                    first,
                    *self,
                    peer_id,
                    data@,
                    RestorationStatus::Inactive,
                    now,
                ));
            }
            return Ok(());
        }
        let status = io.snapshot_status();
        match status {
            RestorationStatus::Inactive | RestorationStatus::Failed => {
                self.end_restoration(status == RestorationStatus::Failed);
                let ghost mid = *self;
                self.continue_sync(io, now);
                proof {
                    lemma_follows_trans(*old(self), first, mid);
                    lemma_follows_trans(*old(self), mid, *self);
                    assert(old(self).chunk_taken(first, mid, *self, peer_id, data@, status, now));
                }
                return Ok(());
            },
            RestorationStatus::Ongoing { .. } => {},
        }
        let chunk = match bytes_at(data, 0) {
            Ok(chunk) => chunk,
            Err(e) => {
                proof {
                    assert(old(self).chunk_taken(first, first, *self, peer_id, data@, status, now));
                }
                return Err(e);
            },
        };
        let mut wanted = true;
        match self.snapshot.validate_chunk(chunk.as_slice()) {
            Ok(ChunkType::Block(hash)) => {
                io.restore_block_chunk(hash, chunk);
            },
            Ok(ChunkType::State(hash)) => {
                io.restore_state_chunk(hash, chunk);
            },
            Err(_) => {
                wanted = false;
                self.queue(Action::Disconnect { peer: peer_id });
            },
        }
        if wanted && self.snapshot.is_complete() {
            self.state = SyncState::SnapshotWaiting;
        }
        let ghost mid = *self;
        proof {
            assert(first.chunk_applied(mid, peer_id, decoded_bytes_at(data@, 0)->0));
            assert(progresses(first, mid));
            lemma_progress_trans(*old(self), first, mid);
        }
        if wanted {
            self.sync_peer(io, peer_id, false, now);
        }
        let ghost g5 = *self;
        proof {
            lemma_progress_refl(mid);
            lemma_progress_trans(mid, mid, g5);
        }
        self.continue_sync(io, now);
        proof {
            lemma_progress_trans(mid, g5, *self);
            lemma_progress_trans(*old(self), mid, *self);
            if wanted {
                assert(mid.offered_on(g5, *self, peer_id, now));
            }
            assert(old(self).chunk_taken(first, mid, *self, peer_id, data@, status, now));
        }
        Ok(())
    }
}

} // verus!
