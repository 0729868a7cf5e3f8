//! What peers announce of their own accord: new blocks, hashes of new
//! blocks, transactions, and messages that are only passed on.

use vstd::prelude::*;
use vstd::slice::slice_to_vec;
use crate::action::Action;
use crate::chain_sync::{
    lemma_prefix_trans,
    lemma_progress_refl,
    lemma_progress_trans,
    progresses,
    ChainSync,
};
use crate::codec::{
    decoded_hash_at,
    decoded_item_at,
    decoded_u256_at,
    decoded_u64_at,
    hash_at,
    item_at,
    u256_at,
    u64_at,
    PacketDecodeError,
};
use crate::env::{BlockDownloader, BlockStatus, ImportResult, SyncIo};
use crate::hashing::{keccak, keccak_of};
use crate::header::{
    collect_transactions,
    decode_header_number,
    decoded_header_number,
    packet_transactions,
};
use crate::peer::PeerInfo;
use crate::peer_map::{lemma_position_unique, lemma_same_ids_distinct, position, same_ids, Entry};
use crate::primitives::{BlockNumber, H256, PeerId, Timestamp, U256};
use crate::primitives::{MAX_NEW_BLOCK_AGE, MAX_NEW_HASHES};
use crate::relations::evolves;
use crate::status::SyncState;

verus! {

/// A block that a peer announces.
pub struct NewBlock<'a> {
    /// The total difficulty that the peer claims.
    pub difficulty: U256,
    /// The encoded block.
    pub block: &'a [u8],
    /// Hash of the block's header.
    pub hash: H256,
    pub number: BlockNumber,
}

/// A block announcement as plain values.
pub struct NewBlockView {
    pub difficulty: U256,
    pub block: Seq<u8>,
    pub hash: H256,
    pub number: BlockNumber,
}

impl<'a> View for NewBlock<'a> {
    type V = NewBlockView;

    open spec fn view(&self) -> NewBlockView {
        NewBlockView {
            difficulty: self.difficulty,
            block: self.block@,
            hash: self.hash,
            number: self.number,
        }
    }
}

/// The block and the header that a block announcement holds after the
/// claimed difficulty.
pub open spec fn decoded_block_part(data: Seq<u8>) -> Option<(Seq<u8>, Seq<u8>, BlockNumber)> {
    match decoded_item_at(data, 0) {
        None => None,
        Some(block) => match decoded_item_at(block, 0) {
            None => None,
            Some(header) => match decoded_header_number(header) {
                None => None,
                Some(number) => Some((block, header, number)),
            },
        },
    }
}

/// The block announcement that `data` encodes: a block, whose first item is
/// its header, and a total difficulty.
pub open spec fn decoded_new_block(data: Seq<u8>) -> Option<NewBlockView> {
    match (decoded_u256_at(data, 1), decoded_block_part(data)) {
        (Some(difficulty), Some((block, header, number))) => Some(
            NewBlockView { difficulty, block, hash: keccak_of(header), number },
        ),
        _ => None,
    }
}

/// Reads what follows the claimed difficulty in a block announcement.
pub fn decode_block_part<'a>(data: &'a [u8], difficulty: U256) -> (r: Result<
    NewBlock<'a>,
    PacketDecodeError,
>)
    ensures
        r is Ok <==> decoded_block_part(data@) is Some,
        r matches Ok(m) ==> decoded_block_part(data@) matches Some((block, header, number))
            && m@ == (NewBlockView { difficulty, block, hash: keccak_of(header), number }),
{
    let block = item_at(data, 0)?;
    let header = item_at(block, 0)?;
    let hash = keccak(header);
    let number = decode_header_number(header)?;
    Ok(NewBlock { difficulty, block, hash, number })
}

/// Whether a block is so far behind the last imported one that news of it
/// is unwelcome.
pub open spec fn spec_too_old(last_imported: BlockNumber, number: BlockNumber) -> bool {
    last_imported > number && last_imported - number > MAX_NEW_BLOCK_AGE
}

pub fn too_old(last_imported: BlockNumber, number: BlockNumber) -> (r: bool)
    ensures
        r == spec_too_old(last_imported, number),
{
    last_imported > number && last_imported - number > MAX_NEW_BLOCK_AGE
}

/// The total difficulty known of a peer after it claimed one: the claim,
/// unless more was known before.
pub open spec fn raised(known: Option<U256>, claim: U256) -> Option<U256> {
    match known {
        Some(d) => if claim.value() > d.value() {
            Some(claim)
        } else {
            Some(d)
        },
        None => Some(claim),
    }
}

/// The highest block heard of after one more was heard of.
pub open spec fn lifted(highest: Option<BlockNumber>, number: BlockNumber) -> Option<
    BlockNumber,
> {
    let known: BlockNumber = match highest {
        Some(h) => h,
        None => 0,
    };
    if number > known {
        Some(number)
    } else {
        highest
    }
}

/// One announced hash with the number of its block, as far as they could be
/// read.
#[derive(Clone, Copy, Debug, PartialEq, Eq, Structural)]
pub struct Announced {
    pub hash: Option<H256>,
    pub number: Option<BlockNumber>,
}

/// What the item at `index` of an announcement of hashes says.
pub open spec fn announced_at(data: Seq<u8>, index: nat) -> Option<Announced> {
    match decoded_item_at(data, index) {
        None => None,
        Some(item) => Some(
            Announced { hash: decoded_hash_at(item, 0), number: decoded_u64_at(item, 1) },
        ),
    }
}

/// Whether `list` holds what the items of `data` say, from the first item up
/// to the first place where there is none, and no more than the most that
/// is read.
pub open spec fn is_announcement(data: Seq<u8>, list: Seq<Announced>) -> bool {
    &&& list.len() <= MAX_NEW_HASHES
    &&& forall|i: int| 0 <= i < list.len() ==> announced_at(data, i as nat)
        == Some(#[trigger] list[i])
    &&& list.len() < MAX_NEW_HASHES ==> announced_at(data, list.len()) is None
}

/// Reads an announcement of hashes.
pub fn decode_announced(data: &[u8]) -> (r: Vec<Announced>)
    ensures
        is_announcement(data@, r@),
{
    let mut list: Vec<Announced> = Vec::new();
    let mut i: usize = 0;
    while i < MAX_NEW_HASHES
        invariant
            i <= MAX_NEW_HASHES,
            list@.len() == i,
            forall|k: int| 0 <= k < i ==> announced_at(data@, k as nat)
                == Some(#[trigger] list@[k]),
        decreases MAX_NEW_HASHES - i,
    {
        match item_at(data, i) {
            Ok(item) => {
                let hash = match hash_at(item, 0) {
                    Ok(h) => Some(h),
                    Err(_) => None,
                };
                let number = match u64_at(item, 1) {
                    Ok(n) => Some(n),
                    Err(_) => None,
                };
                list.push(Announced { hash, number });
            },
            Err(_) => {
                return list;
            },
        }
        i += 1;
    }
    list
}

/// The highest number among the announced blocks; zero where none is.
pub open spec fn highest_announced(list: Seq<Announced>) -> BlockNumber
    decreases list.len(),
{
    if list.len() == 0 {
        0
    } else {
        let before = highest_announced(list.drop_last());
        match list.last().number {
            Some(n) => if n > before {
                n
            } else {
                before
            },
            None => before,
        }
    }
}

pub fn highest_of(list: &Vec<Announced>) -> (r: BlockNumber)
    ensures
        r == highest_announced(list@),
{
    let mut r: BlockNumber = 0;
    let mut i: usize = 0;
    while i < list.len()
        invariant
            i <= list@.len(),
            r == highest_announced(list@.subrange(0, i as int)),
        decreases list@.len() - i,
    {
        proof {
            assert(list@.subrange(0, i + 1).drop_last() =~= list@.subrange(0, i as int));
        }
        if let Some(n) = list[i].number {
            if n > r {
                r = n;
            }
        }
        i += 1;
    }
    assert(list@.subrange(0, list@.len() as int) =~= list@);
    r
}

/// The head known of a peer after it announced hashes: the last hash, where
/// it could be read.
pub open spec fn announced_head(head: H256, list: Seq<Announced>) -> H256 {
    if list.len() > 0 && list.last().hash is Some {
        list.last().hash->0
    } else {
        head
    }
}

/// Whether every announced hash and number could be read.
pub open spec fn all_readable(list: Seq<Announced>) -> bool {
    forall|i: int| 0 <= i < list.len() ==> (#[trigger] list[i]).hash is Some
        && list[i].number is Some
}

impl<D: BlockDownloader> ChainSync<D> {
    /// Whether a peer is registered and can be sent requests.
    pub open spec fn can_sync(&self, peer_id: PeerId) -> bool {
        self.peers.has(peer_id) && self.peer(peer_id).spec_can_sync()
    }

    /// Whether a peer is registered and can be sent requests.
    pub fn peer_can_sync(&self, peer_id: PeerId) -> (r: bool)
        requires
            self.wf(),
        ensures
            r == self.can_sync(peer_id),
    {
        match self.peers.get(peer_id) {
            Some(p) => p.can_sync(),
            None => false,
        }
    }

    /// Replaces what is known of a peer's head and total difficulty.
    pub fn note_head(&mut self, peer_id: PeerId, head: H256, difficulty: Option<U256>)
        requires
            old(self).wf(),
            old(self).peers.has(peer_id),
        ensures
            final(self).wf(),
            *final(self) == (ChainSync { peers: final(self).peers, ..*old(self) }),
            final(self).peers.entries@ == old(self).peers.entries@.update(
                position(old(self).peers.entries@, peer_id),
                Entry {
                    id: peer_id,
                    value: PeerInfo { latest_hash: head, difficulty, ..old(self).peer(peer_id) },
                },
            ),
    {
        match self.peers.index_of(peer_id) {
            Some(i) => {
                let p = &mut self.peers.entries[i].value;
                p.latest_hash = head;
                p.difficulty = difficulty;
                proof {
                    let a = old(self).peers.entries@;
                    let b = self.peers.entries@;
                    assert(b =~= a.update(
                        i as int,
                        Entry {
                            id: peer_id,
                            value: PeerInfo { latest_hash: head, difficulty, ..a[i as int].value },
                        },
                    ));
                    lemma_same_ids_distinct(a, b);
                    assert forall|k: int| 0 <= k < b.len() implies (#[trigger] b[k]).value.wf() by {
                        assert(a[k].value.wf());
                    }
                }
            },
            None => {},
        }
    }

    /// The registry with one peer's head and total difficulty replaced.
    pub open spec fn with_head(&self, peer_id: PeerId, head: H256, difficulty: Option<U256>)
        -> Seq<Entry<PeerInfo>> {
        self.peers.entries@.update(
            position(self.peers.entries@, peer_id),
            Entry {
                id: peer_id,
                value: PeerInfo { latest_hash: head, difficulty, ..self.peer(peer_id) },
            },
        )
    }

    /// Whether `m` is this synchroniser after the chain client answered to
    /// the block that a peer announced: a peer with a bad block is not talked
    /// to again, and with a block whose parent is unknown a synchroniser
    /// that is in step starts fetching announced blocks.
    pub open spec fn import_answered(&self, m: Self, peer_id: PeerId, result: ImportResult)
        -> bool {
        match result {
            ImportResult::Bad => m == (ChainSync { outbox: m.outbox, ..*self }) && m.outbox@
                == self.outbox@.push(Action::Disable { peer: peer_id }),
            ImportResult::UnknownParent => m == (ChainSync {
                state: if self.state == SyncState::Idle {
                    SyncState::NewBlocks
                } else {
                    self.state
                },
                ..*self
            }),
            _ => m == *self,
        }
    }

    /// Whether `n` is this synchroniser after the given block announced by
    /// the given peer was taken, where the downloader told `last_imported`
    /// and the chain client answered `result`: what the peer said of itself
    /// was noted (`noted`); a block that is too old was dropped and nothing
    /// more was done; else the answer of the chain client was followed
    /// (`mid`) and work was handed out.
    pub open spec fn new_block_taken(
        &self,
        noted: Self,
        mid: Self,
        n: Self,
        peer_id: PeerId,
        msg: NewBlockView,
        last_imported: BlockNumber,
        result: ImportResult,
        now: Timestamp,
    ) -> bool {
        &&& noted == (ChainSync {
            peers: noted.peers,
            highest_block: lifted(self.highest_block, msg.number),
            ..*self
        })
        &&& noted.peers.entries@ == self.with_head(
            peer_id,
            msg.hash,
            raised(self.peer(peer_id).difficulty, msg.difficulty),
        )
        &&& if spec_too_old(last_imported, msg.number) {
            mid == noted && n == mid
        } else {
            &&& noted.import_answered(mid, peer_id, result)
            &&& progresses(mid, n)
            &&& exists|reset: Self, ended: Self, offered: Self| #[trigger]
                mid.import_followed(reset, ended, offered, n, peer_id, result, noted.state, now)
        }
    }

    /// Whether `n` is this synchroniser after the answer of the chain
    /// client to an announced block was followed up, where the state was
    /// `before` when the answer came.  With a block that was queued, the
    /// round is ended (`reset`) and the block is made known to the
    /// downloader (`ended`); with a block whose parent is unknown, work is
    /// sought for the peer at any rate if the synchroniser was in step
    /// (`offered`); then the sync goes on.
    pub open spec fn import_followed(
        &self,
        reset: Self,
        ended: Self,
        offered: Self,
        n: Self,
        peer_id: PeerId,
        result: ImportResult,
        before: SyncState,
        now: Timestamp,
    ) -> bool {
        &&& if result is Queued {
            self.round_ended(reset) && ended == (ChainSync {
                new_blocks: ended.new_blocks,
                ..reset
            })
        } else {
            reset == *self && ended == reset
        }
        &&& if result is UnknownParent && before == SyncState::Idle {
            ended.offers_work(offered, peer_id, true, now)
        } else {
            offered == ended
        }
        &&& offered.goes_on(n, now)
    }

    /// Whether `n` is this synchroniser after a peer's announcement of a
    /// block was dealt with, with `r` as the outcome.
    pub open spec fn handles_new_block(
        &self,
        n: Self,
        peer_id: PeerId,
        data: Seq<u8>,
        now: Timestamp,
        r: Result<(), PacketDecodeError>,
    ) -> bool {
        &&& n.wf()
        &&& self.outbox@.is_prefix_of(n.outbox@)
        &&& same_ids(self.peers.entries@, n.peers.entries@)
        &&& !self.can_sync(peer_id) ==> r is Ok && n == *self
        &&& self.can_sync(peer_id) ==> (r is Err <==> decoded_new_block(data) is None)
        &&& self.can_sync(peer_id) && decoded_u256_at(data, 1) is None ==> n
            == *self
        &&& self.can_sync(peer_id) && decoded_u256_at(data, 1) is Some && r is Err ==> n
            == (ChainSync { peers: n.peers, ..*self }) && n.peers.entries@
            == self.with_head(
            peer_id,
            self.peer(peer_id).latest_hash,
            raised(self.peer(peer_id).difficulty, decoded_u256_at(data, 1)->0),
        )
        &&& self.can_sync(peer_id) ==> (decoded_new_block(data) matches Some(msg) ==> {
            &&& evolves(
                self.with_head(
                    peer_id,
                    msg.hash,
                    raised(self.peer(peer_id).difficulty, msg.difficulty),
                ),
                n.peers.entries@,
                n.outbox@,
                self.outbox@.len() as int,
            )
            &&& n.state != SyncState::WaitingPeers || self.state
                == SyncState::WaitingPeers
        })
        &&& self.can_sync(peer_id) && r is Ok ==> exists|
            noted: Self,
            mid: Self,
            last_imported: BlockNumber,
            result: ImportResult,
        | #[trigger]
            self.new_block_taken(
                noted,
                mid,
                n,
                peer_id,
                decoded_new_block(data)->0,
                last_imported,
                result,
                now,
            )
    }

    /// Follows the answer of the chain client to the block that a peer
    /// announced: see `import_answered`.  The answer says whether work is to
    /// be sought for the peer at any rate: with a block whose parent is
    /// unknown, where the synchroniser was in step.
    pub fn follow_import(&mut self, peer_id: PeerId, result: ImportResult) -> (forced: bool)
        requires
            old(self).wf(),
        ensures
            old(self).import_answered(*final(self), peer_id, result),
            forced == (result is UnknownParent && old(self).state == SyncState::Idle),
            progresses(*old(self), *final(self)),
    {
        proof {
            lemma_progress_refl(*old(self));
        }
        match result {
            ImportResult::Bad => {
                self.queue(Action::Disable { peer: peer_id });
                false
            },
            ImportResult::UnknownParent => {
                if self.state == SyncState::Idle {
                    self.state = SyncState::NewBlocks;
                    true
                } else {
                    false
                }
            },
            _ => false,
        }
    }

    /// Takes a block that a peer announces.  Nothing is done for a peer
    /// that cannot be sent requests.  Else the total difficulty that the
    /// peer claims is noted; then the block is read: its hash is the peer's
    /// head from now on, and its number may be the highest heard of.  A
    /// block that is too old is dropped.  One that the chain client finds
    /// bad gets the peer turned away.  A block that the chain client takes
    /// ends the round.  With a block whose parent is unknown, a synchroniser
    /// that is in step starts fetching announced blocks from the peer.  In
    /// the end work is handed out.
    pub fn on_peer_new_block<I: SyncIo>(
        &mut self,
        io: &mut I,
        peer_id: PeerId,
        data: &[u8],
        now: Timestamp,
    ) -> (r: Result<(), PacketDecodeError>)
        requires
            old(self).wf(),
        ensures
            old(self).handles_new_block(*final(self), peer_id, data@, now, r),
    {
        if !self.peer_can_sync(peer_id) {
            return Ok(());
        }
        let claim = u256_at(data, 1)?;
        let (head, known) = match self.peers.get(peer_id) {
            Some(p) => (p.latest_hash, p.difficulty),
            None => (H256::zero(), None),
        };
        let difficulty = match known {
            Some(d) => if claim.gt(&d) {
                Some(claim)
            } else {
                Some(d)
            },
            None => Some(claim),
        };
        let msg = match decode_block_part(data, claim) {
            Ok(msg) => msg,
            Err(e) => {
                self.note_head(peer_id, head, difficulty);
                return Err(e);
            },
        };
        let known_highest: BlockNumber = match self.highest_block {
            Some(h) => h,
            None => 0,
        };
        if msg.number > known_highest {
            self.highest_block = Some(msg.number);
        }
        let ghost at = position(old(self).peers.entries@, peer_id);
        self.note_head(peer_id, msg.hash, difficulty);
        let ghost g0 = *self;
        proof {
            assert(g0.peers.entries@ =~= old(self).with_head(peer_id, msg.hash, difficulty));
            lemma_progress_refl(g0);
        }
        let last_imported = self.new_blocks.last_imported_block_number();
        if too_old(last_imported, msg.number) {
            proof {
                assert(old(self).new_block_taken(
                    g0,
                    *self,
                    *self,
                    peer_id,
                    msg@,
                    last_imported,
                    ImportResult::Bad,
                    now,
                ));
            }
            return Ok(());
        }
        let result = io.import_block(slice_to_vec(msg.block));
        let forced = self.follow_import(peer_id, result);
        let ghost mid = *self;
        let ghost mut reset = mid;
        proof {
            assert(g0.import_answered(mid, peer_id, result));
            assert(progresses(g0, mid));
            lemma_progress_refl(mid);
        }
        if let ImportResult::Queued = result {
            self.complete_sync(io);
            proof {
                reset = *self;
            }
            self.new_blocks.mark_as_known(&msg.hash, msg.number);
        }
        let ghost g1 = *self;
        proof {
            assert(progresses(mid, g1));
        }
        if forced {
            self.sync_peer(io, peer_id, true, now);
        }
        let ghost g3 = *self;
        proof {
            lemma_progress_refl(g1);
            lemma_progress_trans(mid, g1, g3);
        }
        self.continue_sync(io, now);
        proof {
            lemma_progress_trans(mid, g3, *self);
            lemma_progress_trans(g0, mid, *self);
            assert(same_ids(old(self).peers.entries@, self.peers.entries@)) by {
                assert forall|i: int| 0 <= i < self.peers.entries@.len() implies (#[trigger] old(
                    self,
                ).peers.entries@[i]).id == (#[trigger] self.peers.entries@[i]).id by {
                    assert(g0.peers.entries@[i].id == self.peers.entries@[i].id);
                }
            }
            assert(mid.import_followed(reset, g1, g3, *self, peer_id, result, g0.state, now));
            assert(old(self).new_block_taken(
                g0,
                mid,
                *self,
                peer_id,
                msg@,
                last_imported,
                result,
                now,
            ));
        }
        Ok(())
    }
}

/// What came of looking at announced hashes one by one.
pub struct Gathered {
    /// The highest block heard of.
    pub highest: Option<BlockNumber>,
    /// The head of the peer.
    pub head: H256,
    /// The highest number among the blocks that are to be fetched.
    pub max_height: BlockNumber,
    /// The hashes of the blocks that are to be fetched.
    pub hashes: Seq<H256>,
    /// Whether the looking ended early: with an error, for a hash or number
    /// that could not be read, or without one, for a block known to be bad.
    pub ended: Option<bool>,
}

/// What comes of looking at announced hashes, as it is gathered.
pub struct Gathering {
    pub highest: Option<BlockNumber>,
    pub head: H256,
    pub max_height: BlockNumber,
    pub hashes: Vec<H256>,
    pub ended: Option<bool>,
}

impl View for Gathering {
    type V = Gathered;

    open spec fn view(&self) -> Gathered {
        Gathered {
            highest: self.highest,
            head: self.head,
            max_height: self.max_height,
            hashes: self.hashes@,
            ended: self.ended,
        }
    }
}

/// What comes of looking at one more announced hash, where the downloader
/// says `downloading` of it and the chain client `status`.  Nothing more
/// comes of it once the looking has ended.  A hash or number that cannot be
/// read ends it with an error.  Else the number may be the highest heard
/// of; a hash that is being fetched is passed over, as is one of a block
/// that is too old and one that the chain has or has queued; one that is
/// known to be bad ends the looking, and the peer is turned away for it;
/// any other is to be fetched, and the one of the highest block so far is
/// the peer's head.
pub open spec fn gather_step(
    g: Gathered,
    entry: Announced,
    downloading: bool,
    status: BlockStatus,
    last_imported: BlockNumber,
) -> Gathered {
    if g.ended is Some {
        g
    } else if entry.hash is None || entry.number is None {
        Gathered { ended: Some(true), ..g }
    } else {
        let hash = entry.hash->0;
        let number = entry.number->0;
        let g = Gathered { highest: lifted(g.highest, number), ..g };
        if downloading || spec_too_old(last_imported, number) {
            g
        } else {
            match status {
                BlockStatus::InChain => g,
                BlockStatus::Queued => g,
                BlockStatus::Bad => Gathered { ended: Some(false), ..g },
                _ => Gathered {
                    hashes: g.hashes.push(hash),
                    head: if number > g.max_height {
                        hash
                    } else {
                        g.head
                    },
                    max_height: if number > g.max_height {
                        number
                    } else {
                        g.max_height
                    },
                    ..g
                },
            }
        }
    }
}

/// Looks at one more announced hash: see `gather_step`.
pub fn gather_one(
    g: &mut Gathering,
    entry: &Announced,
    downloading: bool,
    status: BlockStatus,
    last_imported: BlockNumber,
)
    ensures
        final(g)@ == gather_step(old(g)@, *entry, downloading, status, last_imported),
{
    if g.ended.is_some() {
        return ;
    }
    let (hash, number) = match (entry.hash, entry.number) {
        (Some(hash), Some(number)) => (hash, number),
        _ => {
            g.ended = Some(true);
            return ;
        },
    };
    let known: BlockNumber = match g.highest {
        Some(h) => h,
        None => 0,
    };
    if number > known {
        g.highest = Some(number);
    }
    if downloading || too_old(last_imported, number) {
        return ;
    }
    match status {
        BlockStatus::InChain => {},
        BlockStatus::Queued => {},
        BlockStatus::Bad => {
            g.ended = Some(false);
        },
        _ => {
            g.hashes.push(hash);
            if number > g.max_height {
                g.head = hash;
                g.max_height = number;
            }
        },
    }
}

/// What comes of looking at the announced hashes in turn, where the
/// downloader and the chain client answer for each as the two sequences
/// say.
pub open spec fn gather(
    list: Seq<Announced>,
    downloading: Seq<bool>,
    statuses: Seq<BlockStatus>,
    last_imported: BlockNumber,
    start: Gathered,
) -> Gathered
    decreases list.len(),
{
    if list.len() == 0 {
        start
    } else {
        gather_step(
            gather(list.drop_last(), downloading, statuses, last_imported, start),
            list.last(),
            downloading[list.len() - 1],
            statuses[list.len() - 1],
            last_imported,
        )
    }
}

/// What comes of the looking depends on the answers for the hashes looked
/// at only.
pub proof fn lemma_gather_answers(
    list: Seq<Announced>,
    d1: Seq<bool>,
    d2: Seq<bool>,
    t1: Seq<BlockStatus>,
    t2: Seq<BlockStatus>,
    last_imported: BlockNumber,
    start: Gathered,
)
    requires
        forall|i: int| 0 <= i < list.len() ==> d1[i] == d2[i] && t1[i] == t2[i],
    ensures
        gather(list, d1, t1, last_imported, start) == gather(list, d2, t2, last_imported, start),
    decreases list.len(),
{
    if list.len() > 0 {
        lemma_gather_answers(list.drop_last(), d1, d2, t1, t2, last_imported, start);
    }
}

/// What is queued for the peer where the looking ended for a block known
/// to be bad: the peer is turned away.
pub open spec fn turned_away(peer_id: PeerId, ended: Option<bool>) -> Seq<Action> {
    if ended == Some(false) {
        seq![Action::Disable { peer: peer_id }]
    } else {
        Seq::empty()
    }
}

/// What the looking starts from.
pub open spec fn gather_start(highest: Option<BlockNumber>, head: H256) -> Gathered {
    Gathered { highest, head, max_height: 0, hashes: Seq::empty(), ended: None }
}

impl<D: BlockDownloader> ChainSync<D> {
    /// Whether `n` is this synchroniser after the given announcement of
    /// hashes by the given peer was taken, where the downloader told
    /// `last_imported` and the downloader and the chain client answered for
    /// each hash as the two sequences say.
    ///
    /// The peer's total difficulty is no longer known and its head is the
    /// last hash that could be read (`noted`).  While a sync is going on,
    /// only the highest block heard of is noted.  In step, the hashes are
    /// looked at in turn, see `gather_step`; where that does not end early
    /// and there is anything to fetch, announced blocks are being fetched
    /// from now on (`mid`) and work is sought for the peer at any rate.
    /// Then, unless the looking ended early, the sync goes on.
    pub open spec fn hashes_taken(
        &self,
        noted: Self,
        mid: Self,
        n: Self,
        peer_id: PeerId,
        list: Seq<Announced>,
        downloading: Seq<bool>,
        statuses: Seq<BlockStatus>,
        last_imported: BlockNumber,
        now: Timestamp,
    ) -> bool {
        let head = announced_head(self.peer(peer_id).latest_hash, list);
        let g = gather(
            list,
            downloading,
            statuses,
            last_imported,
            gather_start(self.highest_block, head),
        );
        &&& noted == (ChainSync { peers: noted.peers, ..*self })
        &&& noted.peers.entries@ == self.with_head(peer_id, head, None)
        &&& if self.state != SyncState::Idle {
            mid == (ChainSync {
                highest_block: lifted(self.highest_block, highest_announced(list)),
                ..noted
            }) && mid.goes_on(n, now)
        } else {
            &&& mid == (ChainSync {
                peers: mid.peers,
                highest_block: g.highest,
                outbox: mid.outbox,
                new_blocks: mid.new_blocks,
                state: if g.ended is None && g.max_height != 0 {
                    SyncState::NewBlocks
                } else {
                    SyncState::Idle
                },
                ..noted
            })
            &&& mid.peers.entries@ == self.with_head(peer_id, g.head, None)
            &&& mid.outbox@ == self.outbox@ + turned_away(peer_id, g.ended)
            &&& if g.ended is Some {
                n == mid
            } else if g.max_height != 0 {
                progresses(mid, n) && exists|offered: Self| #[trigger]
                    mid.pressed_on(offered, n, peer_id, now)
            } else {
                mid.goes_on(n, now)
            }
        }
    }

    /// Whether taking the given announcement ends with an error: the
    /// synchroniser is in step, and a hash or number of the announcement
    /// cannot be read before a block turns out to be bad.
    pub open spec fn hashes_failed(
        &self,
        peer_id: PeerId,
        list: Seq<Announced>,
        downloading: Seq<bool>,
        statuses: Seq<BlockStatus>,
        last_imported: BlockNumber,
    ) -> bool {
        self.state == SyncState::Idle && gather(
            list,
            downloading,
            statuses,
            last_imported,
            gather_start(
                self.highest_block,
                announced_head(self.peer(peer_id).latest_hash, list),
            ),
        ).ended == Some(true)
    }

    /// Whether `n` is this synchroniser after a peer's announcement of
    /// hashes was dealt with, with `r` as the outcome.
    pub open spec fn handles_new_hashes(
        &self,
        n: Self,
        peer_id: PeerId,
        data: Seq<u8>,
        now: Timestamp,
        r: Result<(), PacketDecodeError>,
    ) -> bool {
        &&& n.wf()
        &&& self.outbox@.is_prefix_of(n.outbox@)
        &&& same_ids(self.peers.entries@, n.peers.entries@)
        &&& !self.can_sync(peer_id) ==> r is Ok && n == *self
        &&& self.state != SyncState::Idle ==> r is Ok
        &&& self.can_sync(peer_id) ==> exists|
            list: Seq<Announced>,
            noted: Self,
            mid: Self,
            downloading: Seq<bool>,
            statuses: Seq<BlockStatus>,
            last_imported: BlockNumber,
        |
            {
                &&& is_announcement(data, list)
                &&& #[trigger] self.hashes_taken(
                    noted,
                    mid,
                    n,
                    peer_id,
                    list,
                    downloading,
                    statuses,
                    last_imported,
                    now,
                )
                &&& r is Err <==> self.hashes_failed(
                    peer_id,
                    list,
                    downloading,
                    statuses,
                    last_imported,
                )
                &&& all_readable(list) ==> r is Ok
                &&& r is Err ==> self.state == SyncState::Idle && !all_readable(list)
            }
        &&& n.state != SyncState::WaitingPeers || self.state
            == SyncState::WaitingPeers
    }

    /// Takes hashes of new blocks that a peer announces.  Nothing is done
    /// for a peer that cannot be sent requests.  Else see `hashes_taken`;
    /// it is an error where `hashes_failed` says so.
    pub fn on_peer_new_hashes<I: SyncIo>(
        &mut self,
        io: &mut I,
        peer_id: PeerId,
        data: &[u8],
        now: Timestamp,
    ) -> (r: Result<(), PacketDecodeError>)
        requires
            old(self).wf(),
        ensures
            old(self).handles_new_hashes(*final(self), peer_id, data@, now, r),
    {
        if !self.peer_can_sync(peer_id) {
            return Ok(());
        }
        let list = decode_announced(data);
        let ghost at = position(old(self).peers.entries@, peer_id);
        let old_head = match self.peers.get(peer_id) {
            Some(p) => p.latest_hash,
            None => H256::zero(),
        };
        let mut head = old_head;
        if list.len() > 0 {
            if let Some(h) = list[list.len() - 1].hash {
                head = h;
            }
        }
        self.note_head(peer_id, head, None);
        let ghost noted = *self;
        let ghost none_d = Seq::<bool>::empty();
        let ghost none_s = Seq::<BlockStatus>::empty();
        proof {
            lemma_position_unique(self.peers.entries@, at);
            assert(same_ids(old(self).peers.entries@, noted.peers.entries@));
        }
        if self.state != SyncState::Idle {
            let max = highest_of(&list);
            let known: BlockNumber = match self.highest_block {
                Some(h) => h,
                None => 0,
            };
            if max > known {
                self.highest_block = Some(max);
            }
            let ghost mid = *self;
            self.continue_sync(io, now);
            proof {
                assert(same_ids(old(self).peers.entries@, self.peers.entries@)) by {
                    assert forall|i: int|
                        0 <= i < self.peers.entries@.len() implies (#[trigger] old(
                        self,
                    ).peers.entries@[i]).id == (#[trigger] self.peers.entries@[i]).id by {
                        assert(mid.peers.entries@[i].id == self.peers.entries@[i].id);
                    }
                }
                lemma_prefix_trans(old(self).outbox@, mid.outbox@, self.outbox@);
                assert(old(self).hashes_taken(
                    noted,
                    mid,
                    *self,
                    peer_id,
                    list@,
                    none_d,
                    none_s,
                    0,
                    now,
                ));
            }
            return Ok(());
        }
        let last_imported = self.new_blocks.last_imported_block_number();
        let mut g = Gathering {
            highest: self.highest_block,
            head,
            max_height: 0,
            hashes: Vec::new(),
            ended: None,
        };
        let ghost start = gather_start(old(self).highest_block, head);
        let ghost mut downloading = Seq::<bool>::empty();
        let ghost mut statuses = Seq::<BlockStatus>::empty();
        proof {
            assert(g@ == start);
            assert(list@.subrange(0, 0) =~= Seq::<Announced>::empty());
        }
        let mut i: usize = 0;
        while i < list.len() && g.ended.is_none()
            invariant
                i <= list@.len(),
                *self == noted,
                downloading.len() == i,
                statuses.len() == i,
                gather(list@.subrange(0, i as int), downloading, statuses, last_imported, start)
                    == g@,
                forall|k: int|
                    0 <= k < i && g.ended is None ==> (#[trigger] list@[k]).hash is Some
                        && list@[k].number is Some,
                g.ended == Some(true) ==> !all_readable(list@),
            decreases list@.len() - i,
        {
            let entry = list[i];
            let (is_downloading, status) = match (entry.hash, entry.number) {
                (Some(hash), Some(_)) => (
                    self.new_blocks.is_downloading(&hash),
                    io.block_status(&hash),
                ),
                _ => (false, BlockStatus::Unknown),
            };
            gather_one(&mut g, &entry, is_downloading, status, last_imported);
            proof {
                let d = downloading.push(is_downloading);
                let t = statuses.push(status);
                lemma_gather_answers(
                    list@.subrange(0, i as int),
                    downloading,
                    d,
                    statuses,
                    t,
                    last_imported,
                    start,
                );
                assert(list@.subrange(0, i + 1).drop_last() =~= list@.subrange(0, i as int));
                if g.ended == Some(true) {
                    assert(list@[i as int].hash is None || list@[i as int].number is None);
                }
                downloading = d;
                statuses = t;
            }
            i += 1;
        }
        proof {
            if g.ended is Some {
                lemma_gather_ended(list@, i as nat, downloading, statuses, last_imported, start);
            } else {
                assert(list@.subrange(0, list@.len() as int) =~= list@);
            }
            assert(gather(list@, downloading, statuses, last_imported, start) == g@);
        }
        let ended = g.ended;
        let ghost gathered = g@;
        let fetch = self.apply_gathered(peer_id, g);
        let ghost applied = *self;
        proof {
            lemma_position_unique(applied.peers.entries@, at);
            assert(applied.peers.entries@ =~= old(self).with_head(peer_id, gathered.head, None));
            lemma_prefix_of_sum(old(self).outbox@, turned_away(peer_id, gathered.ended));
            assert(same_ids(old(self).peers.entries@, applied.peers.entries@));
        }
        match ended {
            Some(failed) => {
                proof {
                    assert(old(self).hashes_taken(
                        noted,
                        applied,
                        applied,
                        peer_id,
                        list@,
                        downloading,
                        statuses,
                        last_imported,
                        now,
                    ));
                }
                if failed {
                    return Err(PacketDecodeError::Malformed);
                }
                return Ok(());
            },
            None => {},
        }
        let forced = fetch.is_some();
        if let Some(hashes) = fetch {
            self.new_blocks.reset_to(hashes);
        }
        let ghost mid = *self;
        proof {
            assert(same_ids(old(self).peers.entries@, mid.peers.entries@));
            lemma_position_unique(mid.peers.entries@, at);
            lemma_progress_refl(mid);
        }
        if forced {
            self.sync_peer(io, peer_id, true, now);
        }
        let ghost g2 = *self;
        self.continue_sync(io, now);
        proof {
            lemma_progress_trans(mid, g2, *self);
            assert(same_ids(old(self).peers.entries@, self.peers.entries@)) by {
                assert forall|k: int| 0 <= k < self.peers.entries@.len() implies (#[trigger] old(
                    self,
                ).peers.entries@[k]).id == (#[trigger] self.peers.entries@[k]).id by {
                    assert(mid.peers.entries@[k].id == self.peers.entries@[k].id);
                }
            }
            lemma_prefix_trans(old(self).outbox@, mid.outbox@, self.outbox@);
            if forced {
                assert(mid.pressed_on(g2, *self, peer_id, now));
            }
            assert(old(self).hashes_taken(
                noted,
                mid,
                *self,
                peer_id,
                list@,
                downloading,
                statuses,
                last_imported,
                now,
            ));
            assert(all_readable(list@));
        }
        Ok(())
    }

    /// Does what came of looking at announced hashes: the highest block
    /// heard of and the head of the peer are noted; where the looking ended
    /// for a block known to be bad, the peer is turned away; where it did
    /// not end early and there is anything to fetch, announced blocks are
    /// being fetched from now on, and the answer is the hashes of those that
    /// the downloader is to fetch.
    pub fn apply_gathered(&mut self, peer_id: PeerId, g: Gathering) -> (fetch: Option<Vec<H256>>)
        requires
            old(self).wf(),
            old(self).peers.has(peer_id),
        ensures
            final(self).wf(),
            *final(self) == (ChainSync {
                peers: final(self).peers,
                highest_block: g.highest,
                outbox: final(self).outbox,
                state: if g.ended is None && g.max_height != 0 {
                    SyncState::NewBlocks
                } else {
                    old(self).state
                },
                ..*old(self)
            }),
            final(self).peers.entries@ == old(self).with_head(peer_id, g.head, None),
            final(self).outbox@ == old(self).outbox@ + turned_away(peer_id, g.ended),
            fetch is Some <==> g.ended is None && g.max_height != 0,
            fetch matches Some(hashes) ==> hashes@ == g@.hashes,
    {
        self.highest_block = g.highest;
        self.note_head(peer_id, g.head, None);
        if g.ended == Some(false) {
            self.queue(Action::Disable { peer: peer_id });
        }
        proof {
            assert(self.outbox@ =~= old(self).outbox@ + turned_away(peer_id, g.ended));
        }
        if g.ended.is_none() && g.max_height != 0 {
            self.state = SyncState::NewBlocks;
            Some(g.hashes)
        } else {
            None
        }
    }

    /// Whether `r` is the outcome of dealing with the transactions that a
    /// peer sent, where the chain client said `queue_empty` of its queue.
    /// They are looked at only from a peer that is taken transactions from,
    /// and only while the queue is empty; a packet that is looked at and
    /// cannot be read is an error.
    pub open spec fn handles_transactions(
        &self,
        peer_id: PeerId,
        data: Seq<u8>,
        queue_empty: bool,
        r: Result<(), PacketDecodeError>,
    ) -> bool {
        r is Err <==> queue_empty && self.takes_transactions(peer_id) && packet_transactions(data)
            is None
    }

    /// Takes transactions that a peer sent.  They are handed to the chain
    /// client, all but those that are too large, where the synchroniser is
    /// in step or fetching announced blocks, the block queue is empty and
    /// the peer can be sent requests; else they are dropped.
    pub fn on_peer_transactions<I: SyncIo>(&self, io: &mut I, peer_id: PeerId, data: &[u8]) -> (r:
        Result<(), PacketDecodeError>)
        requires
            self.wf(),
        ensures
            exists|queue_empty: bool| #[trigger]
                self.handles_transactions(peer_id, data@, queue_empty, r),
    {
        let queue_empty = io.queue_info().is_empty();
        if !queue_empty || (self.state != SyncState::Idle && self.state != SyncState::NewBlocks) {
            let r = Ok(());
            proof {
                assert(self.handles_transactions(peer_id, data@, queue_empty, r));
            }
            return r;
        }
        if !self.peer_can_sync(peer_id) {
            let r = Ok(());
            proof {
                assert(self.handles_transactions(peer_id, data@, queue_empty, r));
            }
            return r;
        }
        let r = match collect_transactions(data) {
            Ok(transactions) => {
                io.queue_transactions(transactions, peer_id);
                Ok(())
            },
            Err(e) => Err(e),
        };
        proof {
            assert(self.handles_transactions(peer_id, data@, queue_empty, r));
        }
        r
    }

    /// Whether transactions from a peer are looked at, if the block queue
    /// is empty.
    pub open spec fn takes_transactions(&self, peer_id: PeerId) -> bool {
        (self.state == SyncState::Idle || self.state == SyncState::NewBlocks) && self.can_sync(
            peer_id,
        )
    }

    /// Passes a consensus message on to the chain client.
    pub fn on_consensus_packet<I: SyncIo>(io: &mut I, peer_id: PeerId, data: &[u8]) -> (r: Result<
        (),
        PacketDecodeError,
    >)
        ensures
            r is Ok,
    {
        io.queue_consensus_message(slice_to_vec(data));
        Ok(())
    }

    /// Passes a private transaction on, where the peer can be sent
    /// requests.
    pub fn on_private_transaction<I: SyncIo>(&self, io: &mut I, peer_id: PeerId, data: &[u8]) -> (r:
        Result<(), PacketDecodeError>)
        requires
            self.wf(),
        ensures
            r is Ok,
    {
        if !self.peer_can_sync(peer_id) {
            return Ok(());
        }
        io.import_private_transaction(slice_to_vec(data));
        Ok(())
    }

    /// Passes a signed private transaction on, where the peer can be sent
    /// requests.
    pub fn on_signed_private_transaction<I: SyncIo>(
        &self,
        io: &mut I,
        peer_id: PeerId,
        data: &[u8],
    ) -> (r: Result<(), PacketDecodeError>)
        requires
            self.wf(),
        ensures
            r is Ok,
    {
        if !self.peer_can_sync(peer_id) {
            return Ok(());
        }
        io.import_signed_private_transaction(slice_to_vec(data));
        Ok(())
    }
}

/// Once the looking has ended, nothing more comes of it.
pub proof fn lemma_gather_ended(
    list: Seq<Announced>,
    upto: nat,
    downloading: Seq<bool>,
    statuses: Seq<BlockStatus>,
    last_imported: BlockNumber,
    start: Gathered,
)
    requires
        upto <= list.len(),
        gather(list.subrange(0, upto as int), downloading, statuses, last_imported, start).ended
            is Some,
    ensures
        gather(list, downloading, statuses, last_imported, start) == gather(
            list.subrange(0, upto as int),
            downloading,
            statuses,
            last_imported,
            start,
        ),
    decreases list.len(),
{
    if upto < list.len() {
        assert(list.drop_last().subrange(0, upto as int) =~= list.subrange(0, upto as int));
        lemma_gather_ended(list.drop_last(), upto, downloading, statuses, last_imported, start);
    } else {
        assert(list.subrange(0, upto as int) =~= list);
    }
}

/// A sequence is the beginning of itself with more after it.
pub proof fn lemma_prefix_of_sum(a: Seq<Action>, b: Seq<Action>)
    ensures
        a.is_prefix_of(a + b),
{
    assert(a =~= (a + b).subrange(0, a.len() as int));
}

} // verus!
