//! Answers to requests for block data: the header of the fork block,
//! headers, bodies and receipts.

use vstd::prelude::*;
use vstd::slice::slice_to_vec;
use crate::action::Action;
use crate::chain_sync::{lemma_progress_refl, lemma_progress_trans, progresses, ChainSync};
use crate::codec::{
    decoded_item_at,
    decoded_item_count,
    item_at,
    item_count,
    PacketDecodeError,
};
use crate::env::{BlockDownloader, DownloadAction, DownloaderImportError, SyncIo};
use crate::hashing::{keccak, keccak_of};
use crate::peer::{BlockSet, ForkConfirmation, PeerAsking, PeerInfo};
use crate::peer_map::{lemma_same_ids_distinct, position, same_ids, Entry};
use crate::primitives::{H256, PeerId, Timestamp};
use crate::relations::{lemma_evolves_wf, peer_evolves};
use crate::status::SyncState;

verus! {

/// What a peer's answer to the request for the fork block's header shows.
#[derive(Clone, Copy, Debug, PartialEq, Eq, Structural)]
pub enum ForkAnswer {
    /// The peer does not have the block.
    TooShort,
    /// The peer has the block that we expect.
    Confirmed,
    /// The peer has another block at that height.
    Mismatch,
}

/// What an answer shows: anything but one header means that the peer's
/// chain is too short; one header is held against the hash of the fork
/// block, where one is set.  Nothing where the answer cannot be decoded.
pub open spec fn spec_fork_answer(data: Seq<u8>, fork_hash: Option<H256>) -> Option<ForkAnswer> {
    match decoded_item_count(data) {
        None => None,
        Some(count) => if count != 1 {
            Some(ForkAnswer::TooShort)
        } else {
            match decoded_item_at(data, 0) {
                None => None,
                Some(header) => if fork_hash is None || fork_hash == Some(keccak_of(header)) {
                    Some(ForkAnswer::Confirmed)
                } else {
                    Some(ForkAnswer::Mismatch)
                },
            }
        },
    }
}

/// Holds an answer against the hash of the fork block; with the answer
/// comes the header that confirmed.
pub fn fork_answer<'a>(data: &'a [u8], fork_hash: Option<H256>) -> (r: Result<
    (ForkAnswer, Option<&'a [u8]>),
    PacketDecodeError,
>)
    ensures
        r is Ok <==> spec_fork_answer(data@, fork_hash) is Some,
        r matches Ok((answer, header)) ==> spec_fork_answer(data@, fork_hash) == Some(answer) && (
        answer is Confirmed <==> header is Some) && (header matches Some(h) ==> decoded_item_at(
            data@,
            0,
        ) == Some(h@)),
{
    let count = item_count(data)?;
    if count != 1 {
        return Ok((ForkAnswer::TooShort, None));
    }
    let header = item_at(data, 0)?;
    let confirmed = match fork_hash {
        Some(hash) => keccak(header) == hash,
        None => true,
    };
    if confirmed {
        Ok((ForkAnswer::Confirmed, Some(header)))
    } else {
        Ok((ForkAnswer::Mismatch, None))
    }
}

/// What is known of a peer's answer before it is looked into.
#[derive(Clone, Copy, Debug, PartialEq, Eq, Structural)]
pub struct Answer {
    /// Whether the peer was asked for this kind of data.
    pub matched: bool,
    /// The block from which headers were asked for.
    pub expected_hash: Option<H256>,
    /// Whether the peer counted when the answer came: it was confirmed or
    /// too short, and the request had not expired.
    pub allowed: bool,
    /// The downloader that the request belonged to.
    pub block_set: BlockSet,
}

impl Answer {
    /// What is known of the answer of a peer with the given record.
    pub open spec fn of(p: PeerInfo, asking: PeerAsking) -> Answer {
        Answer {
            matched: p.asking == asking,
            expected_hash: p.asking_hash,
            allowed: p.spec_is_allowed(),
            block_set: match p.block_set {
                Some(set) => set,
                None => BlockSet::NewBlocks,
            },
        }
    }

    /// What is known of the answer of a peer that is not registered.
    pub open spec fn unknown() -> Answer {
        Answer {
            matched: false,
            expected_hash: None,
            allowed: false,
            block_set: BlockSet::NewBlocks,
        }
    }

    /// Whether headers that came are looked into: they were asked for, from
    /// a known block, of a peer that counted.  The answer of a peer whose
    /// request had expired is never looked into.
    pub open spec fn spec_headers_expected(&self) -> bool {
        self.matched && self.expected_hash is Some && self.allowed
    }

    /// Whether bodies or receipts that came are looked into: they were
    /// asked for, of a peer that counted.  The answer of a peer whose
    /// request had expired is never looked into.
    pub open spec fn spec_parts_expected(&self) -> bool {
        self.matched && self.allowed
    }

    pub fn headers_expected(&self) -> (r: bool)
        ensures
            r == self.spec_headers_expected(),
    {
        self.matched && self.expected_hash.is_some() && self.allowed
    }

    pub fn parts_expected(&self) -> (r: bool)
        ensures
            r == self.spec_parts_expected(),
    {
        self.matched && self.allowed
    }
}

/// Whether headers are handed to a downloader in the given state: not while
/// in step or waiting for peers with no old blocks to fetch, not while
/// paused, and not for old blocks where none are fetched.
pub open spec fn spec_headers_wanted(state: SyncState, has_old_blocks: bool, set: BlockSet)
    -> bool {
    &&& !((state == SyncState::Idle || state == SyncState::WaitingPeers) && !has_old_blocks)
    &&& state != SyncState::Waiting
    &&& !(set == BlockSet::OldBlocks && !has_old_blocks)
}

pub fn headers_wanted(state: SyncState, has_old_blocks: bool, set: BlockSet) -> (r: bool)
    ensures
        r == spec_headers_wanted(state, has_old_blocks, set),
{
    !((state == SyncState::Idle || state == SyncState::WaitingPeers) && !has_old_blocks) && state
        != SyncState::Waiting && !(set == BlockSet::OldBlocks && !has_old_blocks)
}

/// The record of a peer after the round of its downloader started over.
pub open spec fn expired_by(o: PeerInfo, n: PeerInfo, set: BlockSet) -> bool {
    if o.block_set == Some(set) {
        &&& n.asking_blocks@.len() == 0
        &&& n.asking_hash is None
        &&& n.expired == (o.expired || (o.asking != PeerAsking::Nothing && o.confirmation
            != ForkConfirmation::Unconfirmed))
        &&& n == (PeerInfo {
            asking_blocks: n.asking_blocks,
            asking_hash: None,
            expired: n.expired,
            ..o
        })
    } else {
        n == o
    }
}

impl<D: BlockDownloader> ChainSync<D> {
    /// Queues an action.
    pub fn queue(&mut self, action: Action)
        requires
            old(self).wf(),
        ensures
            *final(self) == (ChainSync { outbox: final(self).outbox, ..*old(self) }),
            final(self).outbox@ == old(self).outbox@.push(action),
            progresses(*old(self), *final(self)),
    {
        self.outbox.push(action);
    }

    /// Whether `m` is this synchroniser after it was noted what a peer's
    /// answer to the request for the fork block's header shows: the peer
    /// carries no request any more, and it is confirmed, or too short, or,
    /// where it is on another fork, it is not talked to again.
    pub open spec fn fork_noted(&self, m: Self, peer_id: PeerId, data: Seq<u8>) -> bool {
        let answer = spec_fork_answer(data, self.fork_hash());
        &&& m.wf()
        &&& m == (ChainSync { peers: m.peers, outbox: m.outbox, ..*self })
        &&& m.peers.entries@ == self.peers.entries@.update(
            position(self.peers.entries@, peer_id),
            Entry {
                id: peer_id,
                value: PeerInfo {
                    asking: PeerAsking::Nothing,
                    confirmation: match answer {
                        Some(ForkAnswer::TooShort) => ForkConfirmation::TooShort,
                        Some(ForkAnswer::Confirmed) => ForkConfirmation::Confirmed,
                        _ => self.peer(peer_id).confirmation,
                    },
                    ..self.peer(peer_id)
                },
            },
        )
        &&& m.outbox@ == if answer == Some(ForkAnswer::Mismatch) {
            self.outbox@.push(Action::Disable { peer: peer_id })
        } else {
            self.outbox@
        }
    }

    /// Whether `n` is this synchroniser after a peer answered the request
    /// for the fork block's header: what the answer shows was noted
    /// (`noted`), and for a peer that is confirmed or too short work was
    /// sought.
    pub open spec fn fork_answered(
        &self,
        noted: Self,
        n: Self,
        peer_id: PeerId,
        data: Seq<u8>,
        now: Timestamp,
    ) -> bool {
        let answer = spec_fork_answer(data, self.fork_hash());
        &&& self.fork_noted(noted, peer_id, data)
        &&& if answer is Some && answer != Some(ForkAnswer::Mismatch) {
            noted.offers_work(n, peer_id, false, now)
        } else {
            n == noted
        }
    }

    /// Notes what a peer's answer to the request for the fork block's
    /// header shows: see `fork_noted`.  With a confirming answer comes the
    /// header.
    pub fn confirm_fork<'a>(&mut self, peer_id: PeerId, data: &'a [u8]) -> (r: Result<
        (ForkAnswer, Option<&'a [u8]>),
        PacketDecodeError,
    >)
        requires
            old(self).wf(),
            old(self).peers.has(peer_id),
        ensures
            final(self).wf(),
            r is Ok <==> spec_fork_answer(data@, old(self).fork_hash()) is Some,
            r matches Ok((answer, header)) ==> spec_fork_answer(data@, old(self).fork_hash())
                == Some(answer) && (answer is Confirmed <==> header is Some) && (
            header matches Some(h) ==> decoded_item_at(data@, 0) == Some(h@)),
            *final(self) == (ChainSync {
                peers: final(self).peers,
                outbox: final(self).outbox,
                ..*old(self)
            }),
            final(self).peers.entries@ == old(self).peers.entries@.update(
                position(old(self).peers.entries@, peer_id),
                Entry {
                    id: peer_id,
                    value: PeerInfo {
                        asking: PeerAsking::Nothing,
                        confirmation: match spec_fork_answer(data@, old(self).fork_hash()) {
                            Some(ForkAnswer::TooShort) => ForkConfirmation::TooShort,
                            Some(ForkAnswer::Confirmed) => ForkConfirmation::Confirmed,
                            _ => old(self).peer(peer_id).confirmation,
                        },
                        ..old(self).peer(peer_id)
                    },
                },
            ),
            final(self).outbox@ == if spec_fork_answer(data@, old(self).fork_hash()) == Some(
                ForkAnswer::Mismatch,
            ) {
                old(self).outbox@.push(Action::Disable { peer: peer_id })
            } else {
                old(self).outbox@
            },
            old(self).fork_noted(*final(self), peer_id, data@),
    {
        let fork_hash = match self.fork_block {
            Some((_, hash)) => Some(hash),
            None => None,
        };
        let i = match self.peers.index_of(peer_id) {
            Some(i) => i,
            None => 0,
        };
        self.peers.entries[i].value.asking = PeerAsking::Nothing;
        let result = fork_answer(data, fork_hash);
        match result {
            Ok((ForkAnswer::TooShort, _)) => {
                self.peers.entries[i].value.confirmation = ForkConfirmation::TooShort;
            },
            Ok((ForkAnswer::Confirmed, _)) => {
                self.peers.entries[i].value.confirmation = ForkConfirmation::Confirmed;
            },
            Ok((ForkAnswer::Mismatch, _)) => {
                self.outbox.push(Action::Disable { peer: peer_id });
            },
            Err(_) => {},
        }
        proof {
            let a = old(self).peers.entries@;
            let b = self.peers.entries@;
            assert(same_ids(a, b));
            lemma_same_ids_distinct(a, b);
            assert forall|k: int| 0 <= k < b.len() implies (#[trigger] b[k]).value.wf() by {
                assert(a[k].value.wf());
            }
            assert(b =~= a.update(
                i as int,
                Entry {
                    id: peer_id,
                    value: PeerInfo {
                        asking: PeerAsking::Nothing,
                        confirmation: b[i as int].value.confirmation,
                        ..a[i as int].value
                    },
                },
            ));
        }
        result
    }

    /// Notes that a peer has answered, and tells what is known of the
    /// answer: see `Answer::of`.  The peer carries no request any more and
    /// is not expired.
    pub fn take_answer(&mut self, peer_id: PeerId, asking: PeerAsking) -> (r: Answer)
        requires
            old(self).wf(),
        ensures
            final(self).wf(),
            r == if old(self).peers.has(peer_id) {
                Answer::of(old(self).peer(peer_id), asking)
            } else {
                Answer::unknown()
            },
            !old(self).peers.has(peer_id) ==> *final(self) == *old(self),
            old(self).peers.has(peer_id) ==> *final(self) == (ChainSync {
                peers: final(self).peers,
                ..*old(self)
            }) && final(self).peers.entries@ == old(self).peers.entries@.update(
                position(old(self).peers.entries@, peer_id),
                Entry {
                    id: peer_id,
                    value: PeerInfo {
                        expired: false,
                        block_set: None,
                        asking: PeerAsking::Nothing,
                        ..old(self).peer(peer_id)
                    },
                },
            ),
            progresses(*old(self), *final(self)),
            crate::laws::unique_requests(old(self).peers.entries@) ==> crate::laws::unique_requests(
                final(self).peers.entries@,
            ),
    {
        let (expected_hash, allowed, block_set) = match self.peers.get(peer_id) {
            Some(p) => (
                p.asking_hash,
                p.is_allowed(),
                match p.block_set {
                    Some(set) => set,
                    None => BlockSet::NewBlocks,
                },
            ),
            None => (None, false, BlockSet::NewBlocks),
        };
        let matched = self.reset_peer_asking(peer_id, asking);
        Answer { matched, expected_hash, allowed, block_set }
    }

    /// Abandons every request that belongs to the given downloader: see
    /// `PeerInfo::reset_asking`.
    pub fn expire_block_set(&mut self, set: BlockSet)
        requires
            old(self).wf(),
        ensures
            progresses(*old(self), *final(self)),
            *final(self) == (ChainSync { peers: final(self).peers, ..*old(self) }),
            forall|i: int|
                0 <= i < old(self).peers.entries@.len() ==> expired_by(
                    (#[trigger] old(self).peers.entries@[i]).value,
                    final(self).peers.entries@[i].value,
                    set,
                ),
            crate::laws::unique_requests(old(self).peers.entries@) ==> crate::laws::unique_requests(
                final(self).peers.entries@,
            ),
    {
        let mut i: usize = 0;
        while i < self.peers.entries.len()
            invariant
                i <= self.peers.entries@.len(),
                self.peers.entries@.len() == old(self).peers.entries@.len(),
                forall|k: int|
                    0 <= k < self.peers.entries@.len() ==> (#[trigger] self.peers.entries@[k]).id
                        == old(self).peers.entries@[k].id,
                forall|k: int|
                    i <= k < self.peers.entries@.len() ==> (#[trigger] self.peers.entries@[k])
                        == old(self).peers.entries@[k],
                forall|k: int|
                    0 <= k < i ==> expired_by(
                        (#[trigger] old(self).peers.entries@[k]).value,
                        self.peers.entries@[k].value,
                        set,
                    ),
                *self == (ChainSync { peers: self.peers, ..*old(self) }),
            decreases self.peers.entries@.len() - i,
        {
            if self.peers.entries[i].value.block_set == Some(set) {
                self.peers.entries[i].value.reset_asking();
            }
            i += 1;
        }
        proof {
            let a = old(self).peers.entries@;
            let b = self.peers.entries@;
            assert forall|k: int| 0 <= k < a.len() implies peer_evolves(
                (#[trigger] a[k]).value,
                b[k].value,
                a[k].id,
                self.outbox@,
                self.outbox@.len() as int,
            ) by {
                assert(expired_by(a[k].value, b[k].value, set));
            }
            assert(same_ids(a, b));
            lemma_same_ids_distinct(a, b);
            lemma_evolves_wf(a, b, self.outbox@, self.outbox@.len() as int);
            if crate::laws::unique_requests(a) {
                assert forall|k: int| 0 <= k < a.len() implies crate::laws::carries_no_more(
                    (#[trigger] a[k]).value,
                    b[k].value,
                ) by {
                    assert(expired_by(a[k].value, b[k].value, set));
                    crate::laws::lemma_answered_carries_no_more(a[k].value, b[k].value);
                }
                crate::laws::lemma_release_keeps_requests_unique(a, b);
            }
        }
    }
}

/// The parts of blocks that come apart from the headers.
#[derive(Clone, Copy, Debug, PartialEq, Eq, Structural)]
pub enum PartsKind {
    Bodies,
    Receipts,
}

/// The request that the given parts answer.
pub open spec fn asking_of(kind: PartsKind) -> PeerAsking {
    match kind {
        PartsKind::Bodies => PeerAsking::BlockBodies,
        PartsKind::Receipts => PeerAsking::BlockReceipts,
    }
}

impl<D: BlockDownloader> ChainSync<D> {
    /// What is known of the answer that a peer gives now to a request of
    /// the given kind.
    pub open spec fn answer_of(&self, peer_id: PeerId, asking: PeerAsking) -> Answer {
        if self.peers.has(peer_id) {
            Answer::of(self.peer(peer_id), asking)
        } else {
            Answer::unknown()
        }
    }

    /// Whether the peer was asked for the header of the fork block.
    pub open spec fn fork_asked(&self, peer_id: PeerId) -> bool {
        self.peers.has(peer_id) && self.peer(peer_id).asking == PeerAsking::ForkHeader
    }

    /// Whether `m` is this synchroniser after a peer answered: what it was
    /// asked for is free to be asked of others, and the peer carries no
    /// request any more and is not expired.  Of the snapshot downloader
    /// nothing changes but that the chunk that the peer was asked for is
    /// no longer being fetched; the downloaders of blocks were told what
    /// is free again.
    pub open spec fn answer_taken(&self, m: Self, peer_id: PeerId) -> bool {
        &&& m == (ChainSync {
            peers: m.peers,
            new_blocks: m.new_blocks,
            old_blocks: m.old_blocks,
            snapshot: m.snapshot,
            ..*self
        })
        &&& m.old_blocks is Some == self.old_blocks is Some
        &&& m.wf()
        &&& self.chunk_released(m.snapshot, peer_id)
        &&& if self.peers.has(peer_id) {
            m.peers.entries@ == self.peers.entries@.update(
                position(self.peers.entries@, peer_id),
                Entry {
                    id: peer_id,
                    value: PeerInfo {
                        expired: false,
                        block_set: None,
                        asking: PeerAsking::Nothing,
                        ..self.peer(peer_id)
                    },
                },
            )
        } else {
            m.peers.entries@ == self.peers.entries@
        }
    }

    /// Whether headers from the given peer are handed to a downloader: they
    /// are expected, they are a list, and they are wanted in the state that
    /// the synchroniser is in.
    pub open spec fn imports_headers(&self, peer_id: PeerId, data: Seq<u8>) -> bool {
        &&& !self.fork_asked(peer_id)
        &&& self.answer_of(peer_id, PeerAsking::BlockHeaders).spec_headers_expected()
        &&& decoded_item_count(data) is Some
        &&& spec_headers_wanted(
            self.state,
            self.old_blocks is Some,
            self.answer_of(peer_id, PeerAsking::BlockHeaders).block_set,
        )
    }

    /// Whether bodies or receipts from the given peer are handed to a
    /// downloader: they are expected, they are a list that is not empty, the
    /// download is not paused, and their downloader is there.
    pub open spec fn imports_parts(&self, peer_id: PeerId, asking: PeerAsking, data: Seq<u8>)
        -> bool {
        &&& self.answer_of(peer_id, asking).spec_parts_expected()
        &&& decoded_item_count(data) is Some
        &&& decoded_item_count(data) != Some(0nat)
        &&& self.state != SyncState::Waiting
        &&& !(self.answer_of(peer_id, asking).block_set == BlockSet::OldBlocks
            && self.old_blocks is None)
    }

    /// Whether `m` is this synchroniser after a downloader gave its verdict
    /// on what a peer sent: a peer with useless data sits out the round, one
    /// with wrong data is also not talked to again, and where the downloader
    /// starts its round over, the requests that belong to it are abandoned.
    pub open spec fn verdict_applied(
        &self,
        m: Self,
        peer_id: PeerId,
        set: BlockSet,
        verdict: Result<DownloadAction, DownloaderImportError>,
    ) -> bool {
        &&& m == (ChainSync {
            peers: m.peers,
            active_peers: m.active_peers,
            outbox: m.outbox,
            new_blocks: m.new_blocks,
            old_blocks: m.old_blocks,
            ..*self
        })
        &&& m.wf()
        &&& m.outbox@ == if verdict == Err::<DownloadAction, DownloaderImportError>(
            DownloaderImportError::Invalid,
        ) {
            self.outbox@.push(Action::Disable { peer: peer_id })
        } else {
            self.outbox@
        }
        &&& forall|other: PeerId|
            m.active_peers.has(other) == (self.active_peers.has(other) && (other != peer_id
                || verdict is Ok))
        &&& same_ids(self.peers.entries@, m.peers.entries@)
        &&& forall|i: int|
            0 <= i < self.peers.entries@.len() ==> if verdict == Ok::<
                DownloadAction,
                DownloaderImportError,
            >(DownloadAction::Reset) {
                expired_by((#[trigger] self.peers.entries@[i]).value, m.peers.entries@[i].value,
                    set)
            } else {
                m.peers.entries@[i] == self.peers.entries@[i]
            }
    }

    /// Whether `n` is this synchroniser after what a downloader took from a
    /// peer was followed up at `now`: the blocks of the set that are
    /// complete were collected (`collected`), work was sought for the peer
    /// (`offered`), and the sync went on.
    pub open spec fn followed_up(
        &self,
        collected: Self,
        offered: Self,
        n: Self,
        peer_id: PeerId,
        set: BlockSet,
        now: Timestamp,
    ) -> bool {
        &&& self.collects(collected, set, now)
        &&& collected.offers_work(offered, peer_id, false, now)
        &&& offered.goes_on(n, now)
    }

    /// Whether `n` is this synchroniser after what a downloader took from a
    /// peer was followed up at `now`: see `followed_up`.
    pub open spec fn follows_up(&self, n: Self, peer_id: PeerId, set: BlockSet, now: Timestamp)
        -> bool {
        exists|collected: Self, offered: Self| #[trigger]
            self.followed_up(collected, offered, n, peer_id, set, now)
    }

    /// Whether `n` is this synchroniser after headers from the given peer
    /// were taken that are no answer about the fork block: the answer was
    /// noted (`first`); where the headers were handed to a downloader, its
    /// verdict was applied (`mid`); then work was handed out.
    pub open spec fn headers_taken(
        &self,
        first: Self,
        mid: Self,
        n: Self,
        peer_id: PeerId,
        data: Seq<u8>,
        verdict: Result<DownloadAction, DownloaderImportError>,
        now: Timestamp,
    ) -> bool {
        &&& self.answer_taken(first, peer_id)
        &&& if self.imports_headers(peer_id, data) {
            first.verdict_applied(
                mid,
                peer_id,
                self.answer_of(peer_id, PeerAsking::BlockHeaders).block_set,
                verdict,
            )
        } else {
            mid == first
        }
        &&& progresses(mid, n)
        &&& if self.imports_headers(peer_id, data) && verdict != Err::<
            DownloadAction,
            DownloaderImportError,
        >(DownloaderImportError::Invalid) {
            mid.follows_up(
                n,
                peer_id,
                self.answer_of(peer_id, PeerAsking::BlockHeaders).block_set,
                now,
            )
        } else {
            mid.goes_on(n, now)
        }
    }

    /// Whether `n` is this synchroniser after bodies or receipts from the
    /// given peer were taken: the answer was noted (`first`); a peer whose
    /// answer is expected and empty sits out the round; where the answer was
    /// handed to a downloader, its verdict was applied (`mid`); then work
    /// was handed out.
    pub open spec fn parts_taken(
        &self,
        first: Self,
        mid: Self,
        n: Self,
        peer_id: PeerId,
        asking: PeerAsking,
        data: Seq<u8>,
        verdict: Result<DownloadAction, DownloaderImportError>,
        now: Timestamp,
    ) -> bool {
        &&& self.answer_taken(first, peer_id)
        &&& if self.answer_of(peer_id, asking).spec_parts_expected() && decoded_item_count(data)
            == Some(0nat) {
            first.verdict_applied(
                mid,
                peer_id,
                self.answer_of(peer_id, asking).block_set,
                Err(DownloaderImportError::Useless),
            )
        } else if self.imports_parts(peer_id, asking, data) {
            verdict != Ok::<DownloadAction, DownloaderImportError>(DownloadAction::Reset)
                && first.verdict_applied(
                mid,
                peer_id,
                self.answer_of(peer_id, asking).block_set,
                verdict,
            )
        } else {
            mid == first
        }
        &&& progresses(mid, n)
        &&& if self.imports_parts(peer_id, asking, data) && verdict != Err::<
            DownloadAction,
            DownloaderImportError,
        >(DownloaderImportError::Invalid) {
            mid.follows_up(n, peer_id, self.answer_of(peer_id, asking).block_set, now)
        } else {
            mid.goes_on(n, now)
        }
    }

    /// Whether `n` is this synchroniser after the headers that a peer sent
    /// were dealt with, with `r` as the outcome.
    pub open spec fn handles_headers(
        &self,
        n: Self,
        peer_id: PeerId,
        data: Seq<u8>,
        now: Timestamp,
        r: Result<(), PacketDecodeError>,
    ) -> bool {
        &&& n.wf()
        &&& self.outbox@.is_prefix_of(n.outbox@)
        &&& same_ids(self.peers.entries@, n.peers.entries@)
        &&& r is Err <==> if self.fork_asked(peer_id) {
            spec_fork_answer(data, self.fork_hash()) is None
        } else {
            self.answer_of(peer_id, PeerAsking::BlockHeaders).spec_headers_expected()
                && decoded_item_count(data) is None
        }
        &&& !self.fork_asked(peer_id) ==> progresses(*self, n)
        &&& !self.fork_asked(peer_id) && r is Err ==> self.answer_taken(n, peer_id)
        &&& !self.fork_asked(peer_id) && r is Ok ==> exists|
            first: Self,
            mid: Self,
            verdict: Result<DownloadAction, DownloaderImportError>,
        | #[trigger] self.headers_taken(first, mid, n, peer_id, data, verdict, now)
        &&& self.fork_asked(peer_id) ==> n.peer(peer_id).confirmation
            == match spec_fork_answer(data, self.fork_hash()) {
            Some(ForkAnswer::TooShort) => ForkConfirmation::TooShort,
            Some(ForkAnswer::Confirmed) => ForkConfirmation::Confirmed,
            _ => self.peer(peer_id).confirmation,
        }
        &&& self.fork_asked(peer_id) && spec_fork_answer(data, self.fork_hash())
            == Some(ForkAnswer::Mismatch) ==> n.outbox@ == self.outbox@.push(
            Action::Disable { peer: peer_id },
        )
        &&& self.fork_asked(peer_id) ==> exists|noted: Self| #[trigger]
            self.fork_answered(noted, n, peer_id, data, now)
    }

    /// Follows the verdict that a downloader gave on what a peer sent: see
    /// `verdict_applied`.
    pub fn apply_verdict(
        &mut self,
        peer_id: PeerId,
        set: BlockSet,
        verdict: Result<DownloadAction, DownloaderImportError>,
    )
        requires
            old(self).wf(),
        ensures
            old(self).verdict_applied(*final(self), peer_id, set, verdict),
            progresses(*old(self), *final(self)),
    {
        proof {
            lemma_progress_refl(*old(self));
        }
        match verdict {
            Err(DownloaderImportError::Useless) => {
                self.deactivate_peer(peer_id);
            },
            Err(DownloaderImportError::Invalid) => {
                self.queue(Action::Disable { peer: peer_id });
                let ghost queued = *self;
                self.deactivate_peer(peer_id);
                proof {
                    lemma_progress_trans(*old(self), queued, *self);
                }
            },
            Ok(DownloadAction::Reset) => {
                self.expire_block_set(set);
            },
            Ok(DownloadAction::Proceed) => {},
        }
    }

    /// Takes headers that a peer sent.
    ///
    /// From a peer that was asked for the header of the fork block they are
    /// its answer to that: see `confirm_fork`; a peer that is not turned
    /// away is then given work.
    ///
    /// From any other peer they are handed to the downloader that asked,
    /// where they are expected and wanted: see `Answer::spec_headers_expected`
    /// and `spec_headers_wanted`.  What the downloader makes of them decides
    /// how it goes on: a peer with useless data sits out the round, one with
    /// wrong data is not talked to again, and where the downloader starts
    /// its round over, the requests that belong to it are abandoned.  In the
    /// end work is handed out.
    pub fn on_peer_block_headers<I: SyncIo>(
        &mut self,
        io: &mut I,
        peer_id: PeerId,
        data: &[u8],
        now: Timestamp,
    ) -> (r: Result<(), PacketDecodeError>)
        requires
            old(self).wf(),
        ensures
            old(self).handles_headers(*final(self), peer_id, data@, now, r),
    {
        let fork_asked = match self.peers.get(peer_id) {
            Some(p) => p.asking == PeerAsking::ForkHeader,
            None => false,
        };
        if fork_asked {
            let ghost at = position(old(self).peers.entries@, peer_id);
            let result = self.confirm_fork(peer_id, data);
            let ghost g0 = *self;
            proof {
                crate::peer_map::lemma_position_unique(g0.peers.entries@, at);
            }
            let (answer, header) = match result {
                Ok(found) => found,
                Err(e) => {
                    proof {
                        assert(old(self).fork_answered(g0, *self, peer_id, data@, now));
                    }
                    return Err(e);
                },
            };
            match answer {
                ForkAnswer::Mismatch => {
                    proof {
                        assert(old(self).fork_answered(g0, *self, peer_id, data@, now));
                    }
                    return Ok(());
                },
                ForkAnswer::Confirmed => {
                    match (self.fork_block, header) {
                        (Some((number, _)), Some(h)) => {
                            if io.fork_header(number).is_none() {
                                io.keep_fork_header(number, slice_to_vec(h));
                            }
                        },
                        _ => {},
                    }
                },
                ForkAnswer::TooShort => {},
            }
            self.sync_peer(io, peer_id, false, now);
            proof {
                let b = g0.peers.entries@;
                let c = self.peers.entries@;
                assert(peer_evolves(
                    b[at].value,
                    c[at].value,
                    b[at].id,
                    self.outbox@,
                    g0.outbox@.len() as int,
                ));
                crate::peer_map::lemma_position_unique(c, at);
                crate::chain_sync::lemma_prefix_trans(old(self).outbox@, g0.outbox@, self.outbox@);
                assert(same_ids(old(self).peers.entries@, c)) by {
                    assert forall|i: int| 0 <= i < c.len() implies (#[trigger] old(
                        self,
                    ).peers.entries@[i]).id == (#[trigger] c[i]).id by {
                        assert(b[i].id == c[i].id);
                    }
                }
                assert(old(self).fork_answered(g0, *self, peer_id, data@, now));
            }
            return Ok(());
        }
        self.clear_peer_download(peer_id);
        let ghost g1 = *self;
        let answer = self.take_answer(peer_id, PeerAsking::BlockHeaders);
        let ghost first = *self;
        let ghost idle: Result<DownloadAction, DownloaderImportError> = Ok(DownloadAction::Proceed);
        proof {
            lemma_progress_trans(*old(self), g1, first);
            assert(old(self).answer_taken(first, peer_id));
        }
        if !answer.headers_expected() {
            self.continue_sync(io, now);
            proof {
                lemma_progress_trans(*old(self), first, *self);
                assert(old(self).headers_taken(first, first, *self, peer_id, data@, idle, now));
            }
            return Ok(());
        }
        let _ = item_count(data)?;
        let has_old = self.old_blocks.is_some();
        if !headers_wanted(self.state, has_old, answer.block_set) {
            self.continue_sync(io, now);
            proof {
                lemma_progress_trans(*old(self), first, *self);
                assert(old(self).headers_taken(first, first, *self, peer_id, data@, idle, now));
            }
            return Ok(());
        }
        let result = match answer.block_set {
            BlockSet::NewBlocks => self.new_blocks.import_headers(io, data, answer.expected_hash),
            BlockSet::OldBlocks => match &mut self.old_blocks {
                Some(d) => d.import_headers(io, data, answer.expected_hash),
                None => Ok(DownloadAction::Proceed),
            },
        };
        let ghost g3 = *self;
        proof {
            assert(progresses(first, g3));
            lemma_progress_trans(*old(self), first, g3);
        }
        self.apply_verdict(peer_id, answer.block_set, result);
        let ghost mid = *self;
        proof {
            lemma_progress_trans(*old(self), g3, mid);
            assert(first.verdict_applied(mid, peer_id, answer.block_set, result));
        }
        if let Err(DownloaderImportError::Invalid) = result {
            self.continue_sync(io, now);
            proof {
                lemma_progress_trans(*old(self), mid, *self);
                assert(old(self).headers_taken(first, mid, *self, peer_id, data@, result, now));
            }
            return Ok(());
        }
        self.collect_blocks(io, answer.block_set, now);
        let ghost g7 = *self;
        self.sync_peer(io, peer_id, false, now);
        let ghost g8 = *self;
        self.continue_sync(io, now);
        proof {
            lemma_progress_trans(mid, g7, g8);
            lemma_progress_trans(mid, g8, *self);
            lemma_progress_trans(*old(self), mid, *self);
            assert(mid.followed_up(g7, g8, *self, peer_id, answer.block_set, now));
            assert(old(self).headers_taken(first, mid, *self, peer_id, data@, result, now));
        }
        Ok(())
    }

    /// Takes bodies or receipts that a peer sent.  They are handed to the
    /// downloader that asked, where they are expected, not empty, and the
    /// download is not paused; see `Answer::spec_parts_expected`.
    fn on_block_parts<I: SyncIo>(
        &mut self,
        io: &mut I,
        peer_id: PeerId,
        data: &[u8],
        now: Timestamp,
        kind: PartsKind,
    ) -> (r: Result<(), PacketDecodeError>)
        requires
            old(self).wf(),
        ensures
            progresses(*old(self), *final(self)),
            r is Err <==> old(self).answer_of(peer_id, asking_of(kind)).spec_parts_expected()
                && decoded_item_count(data@) is None,
            r is Err ==> old(self).answer_taken(*final(self), peer_id),
            r is Ok ==> exists|
                first: Self,
                mid: Self,
                verdict: Result<DownloadAction, DownloaderImportError>,
            | #[trigger]
                old(self).parts_taken(
                    first,
                    mid,
                    *final(self),
                    peer_id,
                    asking_of(kind),
                    data@,
                    verdict,
                    now,
                ),
    {
        let asking = match kind {
            PartsKind::Bodies => PeerAsking::BlockBodies,
            PartsKind::Receipts => PeerAsking::BlockReceipts,
        };
        self.clear_peer_download(peer_id);
        let ghost g1 = *self;
        let answer = self.take_answer(peer_id, asking);
        let ghost first = *self;
        let ghost idle: Result<DownloadAction, DownloaderImportError> = Ok(DownloadAction::Proceed);
        proof {
            lemma_progress_trans(*old(self), g1, first);
            assert(old(self).answer_taken(first, peer_id));
        }
        if !answer.parts_expected() {
            self.continue_sync(io, now);
            proof {
                lemma_progress_trans(*old(self), first, *self);
                assert(old(self).parts_taken(first, first, *self, peer_id, asking, data@, idle,
                    now));
            }
            return Ok(());
        }
        let count = item_count(data)?;
        if count == 0 {
            self.apply_verdict(peer_id, answer.block_set, Err(DownloaderImportError::Useless));
            let ghost mid = *self;
            self.continue_sync(io, now);
            proof {
                assert(first.verdict_applied(
                    mid,
                    peer_id,
                    answer.block_set,
                    Err(DownloaderImportError::Useless),
                ));
                lemma_progress_trans(*old(self), first, mid);
                lemma_progress_trans(*old(self), mid, *self);
                assert(old(self).parts_taken(first, mid, *self, peer_id, asking, data@, idle, now));
            }
            return Ok(());
        }
        let inactive = match answer.block_set {
            BlockSet::NewBlocks => false,
            BlockSet::OldBlocks => self.old_blocks.is_none(),
        };
        if self.state == SyncState::Waiting || inactive {
            self.continue_sync(io, now);
            proof {
                lemma_progress_trans(*old(self), first, *self);
                assert(old(self).parts_taken(first, first, *self, peer_id, asking, data@, idle,
                    now));
            }
            return Ok(());
        }
        let result = match answer.block_set {
            BlockSet::NewBlocks => match kind {
                PartsKind::Bodies => self.new_blocks.import_bodies(io, data),
                PartsKind::Receipts => self.new_blocks.import_receipts(io, data),
            },
            BlockSet::OldBlocks => match &mut self.old_blocks {
                Some(d) => match kind {
                    PartsKind::Bodies => d.import_bodies(io, data),
                    PartsKind::Receipts => d.import_receipts(io, data),
                },
                None => Ok(()),
            },
        };
        let ghost g3 = *self;
        proof {
            assert(progresses(first, g3));
            lemma_progress_trans(*old(self), first, g3);
        }
        let verdict: Result<DownloadAction, DownloaderImportError> = match result {
            Ok(_) => Ok(DownloadAction::Proceed),
            Err(e) => Err(e),
        };
        self.apply_verdict(peer_id, answer.block_set, verdict);
        let ghost mid = *self;
        proof {
            lemma_progress_trans(*old(self), g3, mid);
            assert(first.verdict_applied(mid, peer_id, answer.block_set, verdict));
        }
        if let Err(DownloaderImportError::Invalid) = result {
            self.continue_sync(io, now);
            proof {
                lemma_progress_trans(*old(self), mid, *self);
                assert(old(self).parts_taken(first, mid, *self, peer_id, asking, data@, verdict,
                    now));
            }
            return Ok(());
        }
        self.collect_blocks(io, answer.block_set, now);
        let ghost g7 = *self;
        self.sync_peer(io, peer_id, false, now);
        let ghost g8 = *self;
        self.continue_sync(io, now);
        proof {
            lemma_progress_trans(mid, g7, g8);
            lemma_progress_trans(mid, g8, *self);
            lemma_progress_trans(*old(self), mid, *self);
            assert(mid.followed_up(g7, g8, *self, peer_id, answer.block_set, now));
            assert(old(self).parts_taken(first, mid, *self, peer_id, asking, data@, verdict, now));
        }
        Ok(())
    }

    /// Whether `n` is this synchroniser after the bodies that a peer sent
    /// were dealt with, with `r` as the outcome.
    pub open spec fn handles_bodies(
        &self,
        n: Self,
        peer_id: PeerId,
        data: Seq<u8>,
        now: Timestamp,
        r: Result<(), PacketDecodeError>,
    ) -> bool {
        &&& progresses(*self, n)
        &&& r is Err <==> self.answer_of(peer_id, PeerAsking::BlockBodies).spec_parts_expected()
            && decoded_item_count(data) is None
        &&& r is Err ==> self.answer_taken(n, peer_id)
        &&& r is Ok ==> exists|
            first: Self,
            mid: Self,
            verdict: Result<DownloadAction, DownloaderImportError>,
        | #[trigger]
            self.parts_taken(
                first,
                mid,
                n,
                peer_id,
                PeerAsking::BlockBodies,
                data,
                verdict,
                now,
            )
    }

    /// Takes block bodies that a peer sent: they go to the downloader that
    /// asked for them, unless they are not expected, empty, or the download
    /// is paused.  In the end work is handed out.
    pub fn on_peer_block_bodies<I: SyncIo>(
        &mut self,
        io: &mut I,
        peer_id: PeerId,
        data: &[u8],
        now: Timestamp,
    ) -> (r: Result<(), PacketDecodeError>)
        requires
            old(self).wf(),
        ensures
            old(self).handles_bodies(*final(self), peer_id, data@, now, r),
    {
        self.on_block_parts(io, peer_id, data, now, PartsKind::Bodies)
    }

    /// Whether `n` is this synchroniser after the receipts that a peer sent
    /// were dealt with, with `r` as the outcome.
    pub open spec fn handles_receipts(
        &self,
        n: Self,
        peer_id: PeerId,
        data: Seq<u8>,
        now: Timestamp,
        r: Result<(), PacketDecodeError>,
    ) -> bool {
        &&& progresses(*self, n)
        &&& r is Err <==> self.answer_of(
            peer_id,
            PeerAsking::BlockReceipts,
        ).spec_parts_expected() && decoded_item_count(data) is None
        &&& r is Err ==> self.answer_taken(n, peer_id)
        &&& r is Ok ==> exists|
            first: Self,
            mid: Self,
            verdict: Result<DownloadAction, DownloaderImportError>,
        | #[trigger]
            self.parts_taken(
                first,
                mid,
                n,
                peer_id,
                PeerAsking::BlockReceipts,
                data,
                verdict,
                now,
            )
    }

    /// Takes block receipts that a peer sent: as `on_peer_block_bodies`.
    pub fn on_peer_block_receipts<I: SyncIo>(
        &mut self,
        io: &mut I,
        peer_id: PeerId,
        data: &[u8],
        now: Timestamp,
    ) -> (r: Result<(), PacketDecodeError>)
        requires
            old(self).wf(),
        ensures
            old(self).handles_receipts(*final(self), peer_id, data@, now, r),
    {
        self.on_block_parts(io, peer_id, data, now, PartsKind::Receipts)
    }
}

} // verus!
