//! Sending news of blocks to peers.

use vstd::prelude::*;
use vstd::slice::slice_to_vec;
use crate::action::{all_sent_to, sent_to_one_of, Action};
use crate::chain_sync::{lemma_prefix_trans, ChainSync};
use crate::env::{BlockDownloader, ChainInfo, SyncIo};
use crate::peer::PeerInfo;
use crate::peer_map::{lemma_same_ids_distinct, same_ids, Entry};
use crate::primitives::{BlockNumber, H256, PacketId, PeerId};
use crate::primitives::{
    CONSENSUS_DATA_PACKET,
    MAX_PEER_LAG_PROPAGATION,
    NEW_BLOCK_HASHES_PACKET,
    NEW_BLOCK_PACKET,
    PRIVATE_TRANSACTION_PACKET,
    SIGNED_PRIVATE_TRANSACTION_PACKET,
};
use crate::propagator::{
    announce_block,
    announce_hashes,
    block_announced,
    create_block_rlp,
    get_consensus_peers,
    get_lagging_peers,
    get_private_transaction_peers,
    payload,
    route_announced,
    select_random_peers,
};

verus! {

/// Whether the records are the same but for the heads of the peers.
pub open spec fn heads_moved(o: Seq<Entry<PeerInfo>>, n: Seq<Entry<PeerInfo>>) -> bool {
    &&& same_ids(o, n)
    &&& forall|i: int|
        0 <= i < o.len() ==> (#[trigger] n[i]).value == (PeerInfo {
            latest_hash: n[i].value.latest_hash,
            ..o[i].value
        })
}

/// Whether every head is where it was or at `head`.
pub open spec fn heads_toward(o: Seq<Entry<PeerInfo>>, n: Seq<Entry<PeerInfo>>,
    head: H256) -> bool {
    &&& o.len() == n.len()
    &&& forall|i: int|
        0 <= i < o.len() ==> (#[trigger] n[i]).value.latest_hash == o[i].value.latest_hash
            || n[i].value.latest_hash == head
}

/// Whether every action from `from` on sends a packet of one of the two
/// given kinds to one of the given peers.
pub open spec fn sent_among(acts: Seq<Action>, from: int, peers: Seq<PeerId>, a: PacketId,
    b: PacketId)
    -> bool {
    forall|k: int|
        0 <= k && from <= k < acts.len() ==> sent_to_one_of(#[trigger] acts[k], peers, a)
            || sent_to_one_of(acts[k], peers, b)
}

/// A peer whose record meets `wanted` is among those that `ids_where`
/// gives.
pub proof fn lemma_ids_where_has(s: Seq<Entry<PeerInfo>>, wanted: spec_fn(PeerInfo) -> bool, i: int)
    requires
        0 <= i < s.len(),
        wanted(s[i].value),
    ensures
        exists|k: int|
            0 <= k < crate::propagator::ids_where(s, wanted).len()
                && #[trigger] crate::propagator::ids_where(s, wanted)[k] == s[i].id,
    decreases s.len(),
{
    let all = crate::propagator::ids_where(s, wanted);
    if i == s.len() - 1 {
        assert(all[all.len() - 1] == s[i].id);
    } else {
        lemma_ids_where_has(s.drop_last(), wanted, i);
        let rest = crate::propagator::ids_where(s.drop_last(), wanted);
        let k = choose|k: int| 0 <= k < rest.len() && #[trigger] rest[k] == s.drop_last()[i].id;
        assert(all[k] == s[i].id);
    }
}

/// Who is picked is among those that were picked from.
pub proof fn lemma_selection_within(all: Seq<PeerId>, picked: Seq<PeerId>, j: int)
    requires
        crate::propagator::is_selection(all, picked),
        0 <= j < picked.len(),
    ensures
        exists|i: int| 0 <= i < all.len() && #[trigger] all[i] == picked[j],
{
    let order = choose|order: Seq<PeerId>|
        #![auto]
        order.to_multiset() == all.to_multiset() && picked.is_prefix_of(order);
    assert(order[j] == picked[j]);
    order.to_multiset_ensures();
    all.to_multiset_ensures();
    assert(order.contains(picked[j]));
    assert(order.to_multiset().count(picked[j]) > 0);
    assert(all.to_multiset().count(picked[j]) > 0);
    assert(all.contains(picked[j]));
}

/// What was sent to those who were picked was sent to some of those that
/// were picked from.
pub proof fn lemma_sent_to_picked(a: Action, all: Seq<PeerId>, picked: Seq<PeerId>, id: PacketId)
    requires
        crate::propagator::is_selection(all, picked),
        sent_to_one_of(a, picked, id),
    ensures
        sent_to_one_of(a, all, id),
{
    let j = choose|j: int| 0 <= j < picked.len() && a.sends_kind(#[trigger] picked[j], id);
    lemma_selection_within(all, picked, j);
    let i = choose|i: int| 0 <= i < all.len() && #[trigger] all[i] == picked[j];
    assert(a.sends_kind(all[i], id));
}

/// Whether the queue `n` is the queue `o` with the same packet for each of
/// the given peers behind it, in their order.
pub open spec fn sent_to_each(
    o: Seq<Action>,
    n: Seq<Action>,
    peers: Seq<PeerId>,
    id: PacketId,
    payload: Seq<u8>,
) -> bool {
    &&& n.len() == o.len() + peers.len()
    &&& o.is_prefix_of(n)
    &&& forall|k: int|
        0 <= k < peers.len() ==> (#[trigger] n[o.len() + k]).sends(peers[k], id, payload)
}

/// Whether `lucky` are peers picked at random from `all` to be sent news:
/// the beginning of some ordering of them, as long as the rounded square
/// root of their number, within the least and the most, or all of them
/// where they are fewer than the least.
pub open spec fn picked_from(all: Seq<PeerId>, lucky: Seq<PeerId>) -> bool {
    &&& crate::propagator::is_selection(all, lucky)
    &&& all.len() >= crate::primitives::MIN_PEERS_PROPAGATION ==> crate::propagator::is_width(
        all.len(),
        lucky.len(),
    )
    &&& all.len() < crate::primitives::MIN_PEERS_PROPAGATION ==> lucky.len() == all.len()
}

/// Whether the queue `n` is the queue `o` with the announcements of the
/// given blocks behind it: one block after the other, each to every one of
/// the given peers, with the total difficulty that stands for it in
/// `difficulties`.
pub open spec fn blocks_sent(
    o: Seq<Action>,
    n: Seq<Action>,
    peers: Seq<PeerId>,
    blocks: Seq<Seq<u8>>,
    difficulties: Seq<crate::primitives::U256>,
) -> bool
    decreases blocks.len(),
{
    if blocks.len() == 0 {
        n == o
    } else {
        exists|mid: Seq<Action>, data: Seq<u8>|
            {
                &&& #[trigger] sent_to_each(mid, n, peers, NEW_BLOCK_PACKET, data)
                &&& blocks_sent(o, mid, peers, blocks.drop_last(), difficulties.drop_last())
                &&& crate::propagator::announces_block(data, blocks.last(), difficulties.last())
            }
    }
}

/// The records with the head of the given peer at `head`, where the peer is
/// registered.
pub open spec fn with_head_at(s: Seq<Entry<PeerInfo>>, id: PeerId, head: H256) -> Seq<
    Entry<PeerInfo>,
> {
    if crate::peer_map::has_id(s, id) {
        let at = crate::peer_map::position(s, id);
        s.update(at, Entry { id, value: PeerInfo { latest_hash: head, ..s[at].value } })
    } else {
        s
    }
}

/// Whether the chain client told of a way of which `told` is the
/// announcement: see `route_announced`.
pub open spec fn told_by_chain(told: Option<Seq<u8>>) -> bool {
    exists|
        route: Option<Seq<H256>>,
        uncles: Option<Seq<H256>>,
        numbers: Seq<Option<BlockNumber>>,
    | #[trigger] route_announced(route, uncles, numbers, told)
}

/// Whether the chain client handed out a block of which `told` is the
/// announcement: see `block_announced`.
pub open spec fn block_told_by_chain(told: Option<Seq<u8>>) -> bool {
    exists|block: Option<Seq<u8>>, difficulty: Option<crate::primitives::U256>| #[trigger]
        block_announced(block, difficulty, told)
}

/// Whether the queue `n` is the queue `o` with the given announcements of
/// blocks behind it: one after the other, as far as they are there, each
/// to every one of the given peers.
pub open spec fn announcements_sent(
    o: Seq<Action>,
    n: Seq<Action>,
    peers: Seq<PeerId>,
    told: Seq<Option<Seq<u8>>>,
) -> bool
    decreases told.len(),
{
    if told.len() == 0 {
        n == o
    } else {
        match told.last() {
            None => announcements_sent(o, n, peers, told.drop_last()),
            Some(data) => exists|mid: Seq<Action>| #[trigger]
                sent_to_each(mid, n, peers, NEW_BLOCK_PACKET, data) && announcements_sent(
                    o,
                    mid,
                    peers,
                    told.drop_last(),
                ),
        }
    }
}

/// The records with the head of each of the given peers at `head`, as far
/// as they are registered.
pub open spec fn heads_at(s: Seq<Entry<PeerInfo>>, peers: Seq<PeerId>, head: H256) -> Seq<
    Entry<PeerInfo>,
>
    decreases peers.len(),
{
    if peers.len() == 0 {
        s
    } else {
        with_head_at(heads_at(s, peers.drop_last(), head), peers.last(), head)
    }
}

/// Packets that all went to some of the peers still did so after one more
/// went to each of them.
pub proof fn lemma_sent_to_each_kept(
    before: Seq<Action>,
    after: Seq<Action>,
    from: int,
    peers: Seq<PeerId>,
    id: PacketId,
    data: Seq<u8>,
)
    requires
        0 <= from <= before.len(),
        sent_to_each(before, after, peers, id, data),
        all_sent_to(before, from, peers, id),
    ensures
        all_sent_to(after, from, peers, id),
{
    assert forall|k: int| 0 <= k && from <= k < after.len() implies sent_to_one_of(
        #[trigger] after[k],
        peers,
        id,
    ) by {
        if k < before.len() {
            assert(before =~= after.subrange(0, before.len() as int));
            assert(after.subrange(0, before.len() as int)[k] == after[k]);
            assert(sent_to_one_of(before[k], peers, id));
        } else {
            let j = k - before.len();
            assert(after[before.len() + j].sends(peers[j], id, data));
            assert(after[k].sends_kind(peers[j], id));
        }
    }
}

/// Whether every action from `from` on sends a packet of one of the two
/// given kinds.
pub open spec fn only_sends(acts: Seq<Action>, from: int, a: PacketId, b: PacketId) -> bool {
    forall|k: int|
        0 <= k && from <= k < acts.len() ==> (#[trigger] acts[k]).sends_either(a, b)
}

/// Whether `n` is `o` after news was spread: packets of the two given kinds
/// were queued, heads of peers were moved, the number of the block that was
/// announced last may differ, random choices may have been made, and all
/// else is as it was.
pub open spec fn spread<D: BlockDownloader>(o: ChainSync<D>, n: ChainSync<D>, a: PacketId,
    b: PacketId)
    -> bool {
    &&& n.wf()
    &&& o.outbox@.is_prefix_of(n.outbox@)
    &&& only_sends(n.outbox@, o.outbox@.len() as int, a, b)
    &&& heads_moved(o.peers.entries@, n.peers.entries@)
    &&& n == (ChainSync {
        peers: n.peers,
        outbox: n.outbox,
        last_sent_block_number: n.last_sent_block_number,
        random: n.random,
        ..o
    })
}

pub proof fn lemma_spread_refl<D: BlockDownloader>(s: ChainSync<D>, a: PacketId, b: PacketId)
    requires
        s.wf(),
    ensures
        spread(s, s, a, b),
{
}

pub proof fn lemma_spread_trans<D: BlockDownloader>(
    x: ChainSync<D>,
    y: ChainSync<D>,
    z: ChainSync<D>,
    a: PacketId,
    b: PacketId,
)
    requires
        spread(x, y, a, b),
        spread(y, z, a, b),
    ensures
        spread(x, z, a, b),
{
    lemma_prefix_trans(x.outbox@, y.outbox@, z.outbox@);
    assert forall|k: int| 0 <= k && x.outbox@.len() <= k < z.outbox@.len() implies (
    #[trigger] z.outbox@[k]).sends_either(a, b) by {
        if k < y.outbox@.len() {
            assert(y.outbox@ =~= z.outbox@.subrange(0, y.outbox@.len() as int));
            assert(z.outbox@.subrange(0, y.outbox@.len() as int)[k] == z.outbox@[k]);
            assert(y.outbox@[k] == z.outbox@[k]);
        }
    }
    let o = x.peers.entries@;
    let m = y.peers.entries@;
    let n = z.peers.entries@;
    assert forall|i: int| 0 <= i < o.len() implies (#[trigger] n[i]).value == (PeerInfo {
        latest_hash: n[i].value.latest_hash,
        ..o[i].value
    }) by {
        assert(m[i].value == (PeerInfo { latest_hash: m[i].value.latest_hash, ..o[i].value }));
    }
    assert forall|i: int| 0 <= i < o.len() implies (#[trigger] o[i]).id == (#[trigger] n[i]).id by {
        assert(o[i].id == m[i].id);
        assert(m[i].id == n[i].id);
    }
}

/// News that is spread asks nobody for anything.
pub proof fn lemma_spread_asks_nothing<D: BlockDownloader>(
    o: ChainSync<D>,
    n: ChainSync<D>,
    a: PacketId,
    b: PacketId,
)
    requires
        spread(o, n, a, b),
        !crate::action::is_request_id(a),
        !crate::action::is_request_id(b),
    ensures
        crate::action::no_requests(n.outbox@, o.outbox@.len() as int, n.outbox@.len() as int),
        crate::chain_sync::follows_but_heads(o, n),
{
    let acts = n.outbox@;
    assert forall|k: int| 0 <= k && o.outbox@.len() <= k < acts.len() implies !(
    #[trigger] acts[k]).is_request() by {
        assert(acts[k].sends_either(a, b));
    }
}

impl<D: BlockDownloader> ChainSync<D> {
    /// Queues a packet for a peer.
    pub fn send_packet(&mut self, peer: PeerId, packet_id: PacketId, data: Vec<u8>)
        requires
            old(self).wf(),
        ensures
            *final(self) == (ChainSync { outbox: final(self).outbox, ..*old(self) }),
            final(self).outbox@ == old(self).outbox@.push(
                Action::Send { peer, packet_id, data },
            ),
            spread(*old(self), *final(self), packet_id, packet_id),
    {
        self.outbox.push(Action::Send { peer, packet_id, data });
    }

    /// Moves the head of a peer, where it is registered.
    pub fn move_head(&mut self, peer_id: PeerId, head: H256)
        requires
            old(self).wf(),
        ensures
            *final(self) == (ChainSync { peers: final(self).peers, ..*old(self) }),
            heads_moved(old(self).peers.entries@, final(self).peers.entries@),
            heads_toward(old(self).peers.entries@, final(self).peers.entries@, head),
            final(self).peers.entries@ == with_head_at(old(self).peers.entries@, peer_id, head),
            final(self).wf(),
            old(self).peers.has(peer_id) ==> final(self).peer(peer_id).latest_hash == head,
            forall|i: int|
                0 <= i < old(self).peers.entries@.len() && (#[trigger] old(
                    self,
                ).peers.entries@[i]).id != peer_id ==> final(self).peers.entries@[i] == old(
                    self,
                ).peers.entries@[i],
    {
        match self.peers.index_of(peer_id) {
            Some(i) => {
                self.peers.entries[i].value.latest_hash = head;
                proof {
                    let a = old(self).peers.entries@;
                    let b = self.peers.entries@;
                    assert(same_ids(a, b));
                    lemma_same_ids_distinct(a, b);
                    crate::peer_map::lemma_position_unique(b, i as int);
                    assert forall|k: int| 0 <= k < b.len() implies (#[trigger] b[k]).value.wf() by {
                        assert(a[k].value.wf());
                    }
                }
            },
            None => {},
        }
    }

    /// Writes the announcement of the hashes of the blocks on the way from
    /// one block to another, with the uncles of the first, as the chain
    /// client tells them: see `route_announced`.
    pub fn create_new_hashes_rlp<I: SyncIo>(io: &I, from: &H256, to: &H256) -> (r: Option<Vec<u8>>)
        ensures
            exists|
                route: Option<Seq<H256>>,
                uncles: Option<Seq<H256>>,
                numbers: Seq<Option<BlockNumber>>,
            | #[trigger] route_announced(route, uncles, numbers, payload(r)),
    {
        match io.tree_route(from, to) {
            Some(route) => {
                if route.len() == 0 {
                    let r: Option<Vec<u8>> = None;
                    proof {
                        assert(route_announced(Some(route@), None, Seq::empty(), payload(r)));
                    }
                    return r;
                }
                let found = io.find_uncles(from);
                let ghost found_uncles: Option<Seq<H256>> = if found is Some {
                    Some(found->0@)
                } else {
                    None
                };
                let uncles = match found {
                    Some(u) => u,
                    None => Vec::new(),
                };
                let mut hashes: Vec<H256> = Vec::new();
                let mut numbers: Vec<Option<BlockNumber>> = Vec::new();
                let mut i: usize = 0;
                while i < route.len()
                    invariant
                        i <= route@.len(),
                        hashes@.len() == numbers@.len(),
                        hashes@ == route@.subrange(0, i as int),
                    decreases route@.len() - i,
                {
                    let number = io.block_number(&route[i]);
                    hashes.push(route[i]);
                    numbers.push(number);
                    proof {
                        assert(hashes@ =~= route@.subrange(0, i + 1));
                    }
                    i += 1;
                }
                proof {
                    assert(route@.subrange(0, route@.len() as int) =~= route@);
                    assert(hashes@ =~= route@ + uncles@.subrange(0, 0));
                }
                let mut k: usize = 0;
                while k < uncles.len()
                    invariant
                        k <= uncles@.len(),
                        hashes@.len() == numbers@.len(),
                        hashes@ == route@ + uncles@.subrange(0, k as int),
                    decreases uncles@.len() - k,
                {
                    let number = io.block_number(&uncles[k]);
                    hashes.push(uncles[k]);
                    numbers.push(number);
                    proof {
                        assert(hashes@ =~= route@ + uncles@.subrange(0, k + 1));
                    }
                    k += 1;
                }
                let r = announce_hashes(&hashes, &numbers);
                proof {
                    assert(uncles@.subrange(0, uncles@.len() as int) =~= uncles@);
                    assert(route_announced(Some(route@), found_uncles, numbers@, payload(r)));
                }
                r
            },
            None => {
                let r: Option<Vec<u8>> = None;
                proof {
                    assert(route_announced(None, None, Seq::empty(), payload(r)));
                }
                r
            },
        }
    }

    /// Writes the announcement of our best block with the total difficulty
    /// of the chain, where the chain client hands the block out: see
    /// `block_announced`.
    pub fn create_latest_block_rlp<I: SyncIo>(io: &I) -> (r: Option<Vec<u8>>)
        ensures
            exists|info: ChainInfo, block: Option<Seq<u8>>| #[trigger]
                block_announced(block, Some(info.total_difficulty), payload(r)),
    {
        let info = io.chain_info();
        let block = io.block(&info.best_block_hash);
        let ghost handed = payload(block);
        let r = announce_block(block, Some(info.total_difficulty));
        proof {
            assert(block_announced(handed, Some(info.total_difficulty), payload(r)));
        }
        r
    }

    /// Writes the announcement of the block with the given hash, where the
    /// chain client hands it out with its total difficulty: see
    /// `block_announced`.
    pub fn create_new_block_rlp<I: SyncIo>(io: &I, hash: &H256) -> (r: Option<Vec<u8>>)
        ensures
            exists|block: Option<Seq<u8>>, difficulty: Option<crate::primitives::U256>| #[trigger]
                block_announced(block, difficulty, payload(r)),
    {
        let block = io.block(hash);
        let difficulty = io.block_total_difficulty(hash);
        let ghost handed = payload(block);
        let r = announce_block(block, difficulty);
        proof {
            assert(block_announced(handed, difficulty, payload(r)));
        }
        r
    }

    /// Whether `n` is this synchroniser after blocks were announced to the
    /// given peers, where `told` are the announcements that came of what
    /// the chain client handed out, in turn: each that is there went to
    /// every peer, and the head of each peer is the block `best`.
    pub open spec fn blocks_spread(
        &self,
        n: Self,
        peers: Seq<PeerId>,
        best: H256,
        told: Seq<Option<Seq<u8>>>,
    ) -> bool {
        &&& forall|k: int| 0 <= k < told.len() ==> block_told_by_chain(#[trigger] told[k])
        &&& announcements_sent(self.outbox@, n.outbox@, peers, told)
        &&& n.peers.entries@ == heads_at(self.peers.entries@, peers, best)
        &&& n == (ChainSync { peers: n.peers, outbox: n.outbox, ..*self })
    }

    /// Announces blocks to the given peers: each of the given blocks in
    /// turn, or our best block where none is given, as far as the chain
    /// client hands them out.  The head of each of these peers is our best
    /// block from now on.  See `blocks_spread`.  The answer is the number of
    /// peers.
    pub fn propagate_blocks<I: SyncIo>(
        &mut self,
        chain_info: &ChainInfo,
        io: &mut I,
        blocks: &Vec<H256>,
        peers: &Vec<PeerId>,
    ) -> (sent: usize)
        requires
            old(self).wf(),
        ensures
            sent == peers@.len(),
            spread(*old(self), *final(self), NEW_BLOCK_PACKET, NEW_BLOCK_PACKET),
            heads_toward(
                old(self).peers.entries@,
                final(self).peers.entries@,
                chain_info.best_block_hash,
            ),
            final(self).last_sent_block_number == old(self).last_sent_block_number,
            forall|k: int|
                0 <= k < peers@.len() && old(self).peers.has(#[trigger] peers@[k])
                    ==> final(self).peer(peers@[k]).latest_hash == chain_info.best_block_hash,
            all_sent_to(
                final(self).outbox@,
                old(self).outbox@.len() as int,
                peers@,
                NEW_BLOCK_PACKET,
            ),
            exists|told: Seq<Option<Seq<u8>>>|
                told.len() == (if blocks@.len() == 0 {
                    1nat
                } else {
                    blocks@.len()
                }) && #[trigger] old(self).blocks_spread(
                    *final(self),
                    peers@,
                    chain_info.best_block_hash,
                    told,
                ),
    {
        let ghost mut told = Seq::<Option<Seq<u8>>>::empty();
        proof {
            lemma_spread_refl(*self, NEW_BLOCK_PACKET, NEW_BLOCK_PACKET);
        }
        if blocks.len() == 0 {
            let found = Self::create_latest_block_rlp(io);
            proof {
                told = seq![payload(found)];
                assert(told.drop_last() =~= Seq::<Option<Seq<u8>>>::empty());
                assert(block_told_by_chain(payload(found)));
            }
            if let Some(rlp) = found {
                self.send_to_all(peers, NEW_BLOCK_PACKET, &rlp);
                proof {
                    lemma_sent_to_each_kept(
                        old(self).outbox@,
                        self.outbox@,
                        old(self).outbox@.len() as int,
                        peers@,
                        NEW_BLOCK_PACKET,
                        rlp@,
                    );
                }
            }
        } else {
            let mut b: usize = 0;
            while b < blocks.len()
                invariant
                    b <= blocks@.len(),
                    old(self).wf(),
                    told.len() == b,
                    forall|k: int| 0 <= k < told.len() ==> block_told_by_chain(#[trigger] told[k]),
                    *self == (ChainSync { outbox: self.outbox, ..*old(self) }),
                    spread(*old(self), *self, NEW_BLOCK_PACKET, NEW_BLOCK_PACKET),
                    announcements_sent(old(self).outbox@, self.outbox@, peers@, told),
                    all_sent_to(
                        self.outbox@,
                        old(self).outbox@.len() as int,
                        peers@,
                        NEW_BLOCK_PACKET,
                    ),
                decreases blocks@.len() - b,
            {
                let found = Self::create_new_block_rlp(io, &blocks[b]);
                let ghost before = *self;
                let ghost earlier = told;
                proof {
                    told = told.push(payload(found));
                    assert(told.drop_last() =~= earlier);
                    assert(block_told_by_chain(payload(found)));
                }
                if let Some(rlp) = found {
                    self.send_to_all(peers, NEW_BLOCK_PACKET, &rlp);
                    proof {
                        lemma_spread_trans(
                            *old(self),
                            before,
                            *self,
                            NEW_BLOCK_PACKET,
                            NEW_BLOCK_PACKET,
                        );
                        lemma_sent_to_each_kept(
                            before.outbox@,
                            self.outbox@,
                            old(self).outbox@.len() as int,
                            peers@,
                            NEW_BLOCK_PACKET,
                            rlp@,
                        );
                    }
                }
                b += 1;
            }
        }
        let ghost sent_all = *self;
        proof {
            assert(peers@.subrange(0, 0) =~= Seq::<PeerId>::empty());
            if blocks@.len() == 0 {
                assert(told.len() == 1);
                assert(announcements_sent(
                    old(self).outbox@,
                    old(self).outbox@,
                    peers@,
                    told.drop_last(),
                ));
                assert(announcements_sent(old(self).outbox@, self.outbox@, peers@, told));
            }
            assert(forall|k: int| 0 <= k < told.len() ==> block_told_by_chain(#[trigger] told[k]));
            assert(announcements_sent(old(self).outbox@, self.outbox@, peers@, told));
        }
        let mut p: usize = 0;
        while p < peers.len()
            invariant
                p <= peers@.len(),
                old(self).wf(),
                spread(*old(self), *self, NEW_BLOCK_PACKET, NEW_BLOCK_PACKET),
                heads_toward(
                    old(self).peers.entries@,
                    self.peers.entries@,
                    chain_info.best_block_hash,
                ),
                *self == (ChainSync { peers: self.peers, ..sent_all }),
                sent_all == (ChainSync { outbox: sent_all.outbox, ..*old(self) }),
                self.peers.entries@ == heads_at(
                    old(self).peers.entries@,
                    peers@.subrange(0, p as int),
                    chain_info.best_block_hash,
                ),
                forall|k: int|
                    0 <= k < p && old(self).peers.has(#[trigger] peers@[k]) ==> self.peer(
                        peers@[k],
                    ).latest_hash == chain_info.best_block_hash,
            decreases peers@.len() - p,
        {
            let peer_id = peers[p];
            let ghost before = *self;
            self.move_head(peer_id, chain_info.best_block_hash);
            proof {
                assert(spread(before, *self, NEW_BLOCK_PACKET, NEW_BLOCK_PACKET));
                lemma_spread_trans(*old(self), before, *self, NEW_BLOCK_PACKET, NEW_BLOCK_PACKET);
                lemma_heads_stay(
                    old(self).peers.entries@,
                    before.peers.entries@,
                    self.peers.entries@,
                    peers@,
                    p as int,
                    chain_info.best_block_hash,
                );
                assert(peers@.subrange(0, p + 1).drop_last() =~= peers@.subrange(0, p as int));
            }
            p += 1;
        }
        proof {
            assert(peers@.subrange(0, peers@.len() as int) =~= peers@);
            assert(old(self).blocks_spread(*self, peers@, chain_info.best_block_hash, told));
        }
        peers.len()
    }
}

/// Actions that all sent to some of the peers still do so after one more
/// action to one of them was queued.
pub proof fn lemma_new_action_kept(
    before: Seq<Action>,
    after: Seq<Action>,
    from: int,
    peers: Seq<PeerId>,
    p: int,
    id: PacketId,
)
    requires
        0 <= p < peers.len(),
        0 <= from <= before.len(),
        after.len() == before.len() + 1,
        before.is_prefix_of(after),
        after.last().sends_kind(peers[p], id),
        all_sent_to(before, from, peers, id),
    ensures
        all_sent_to(after, from, peers, id),
{
    assert forall|k: int| 0 <= k && from <= k < after.len() implies sent_to_one_of(
        #[trigger] after[k],
        peers,
        id,
    ) by {
        if k < before.len() {
            assert(before =~= after.subrange(0, before.len() as int));
            assert(after.subrange(0, before.len() as int)[k] == after[k]);
            assert(sent_to_one_of(before[k], peers, id));
        } else {
            assert(after[k] == after.last());
            assert(after[k].sends_kind(peers[p], id));
        }
    }
}

/// The heads that were moved to the best block stay there when one more is
/// moved there.
pub proof fn lemma_heads_stay(
    o: Seq<Entry<PeerInfo>>,
    before: Seq<Entry<PeerInfo>>,
    after: Seq<Entry<PeerInfo>>,
    peers: Seq<PeerId>,
    p: int,
    best: H256,
)
    requires
        0 <= p < peers.len(),
        crate::peer_map::distinct_ids(o),
        same_ids(o, before),
        same_ids(before, after),
        crate::peer_map::has_id(before, peers[p]) ==> after[crate::peer_map::position(
            after,
            peers[p],
        )].value.latest_hash == best,
        forall|i: int|
            0 <= i < before.len() && (#[trigger] before[i]).id != peers[p] ==> after[i]
                == before[i],
        forall|k: int|
            0 <= k < p && crate::peer_map::has_id(o, #[trigger] peers[k])
                ==> before[crate::peer_map::position(before, peers[k])].value.latest_hash == best,
    ensures
        forall|k: int|
            0 <= k < p + 1 && crate::peer_map::has_id(o, #[trigger] peers[k])
                ==> after[crate::peer_map::position(after, peers[k])].value.latest_hash == best,
{
    lemma_same_ids_distinct(o, before);
    lemma_same_ids_distinct(before, after);
    assert forall|k: int| 0 <= k < p + 1 && crate::peer_map::has_id(
        o,
        #[trigger] peers[k],
    ) implies after[crate::peer_map::position(after, peers[k])].value.latest_hash == best by {
        crate::peer_map::lemma_same_ids_has(o, before, peers[k]);
        crate::peer_map::lemma_same_ids_has(before, after, peers[k]);
        if peers[k] != peers[p] {
            let i = crate::peer_map::position(before, peers[k]);
            assert(before[i].id == peers[k]);
            assert(after[i] == before[i]);
            crate::peer_map::lemma_position_unique(after, i);
        }
    }
}

/// The distance between two block numbers.
pub open spec fn spec_distance(a: BlockNumber, b: BlockNumber) -> BlockNumber {
    if a >= b {
        (a - b) as BlockNumber
    } else {
        (b - a) as BlockNumber
    }
}

pub fn distance(a: BlockNumber, b: BlockNumber) -> (r: BlockNumber)
    ensures
        r == spec_distance(a, b),
{
    if a >= b {
        a - b
    } else {
        b - a
    }
}

impl<D: BlockDownloader> ChainSync<D> {
    /// The peers whose head is not our best block.
    pub fn get_lagging_peers(&self, chain_info: &ChainInfo) -> (r: Vec<PeerId>)
        ensures
            r@ == crate::propagator::lagging(self.peers.entries@, chain_info.best_block_hash),
    {
        get_lagging_peers(&self.peers, chain_info)
    }

    /// The peers that take consensus messages.
    pub fn get_consensus_peers(&self) -> (r: Vec<PeerId>)
        ensures
            r@ == crate::propagator::speaking(
                self.peers.entries@,
                crate::primitives::PAR_PROTOCOL_VERSION_2,
            ),
    {
        get_consensus_peers(&self.peers)
    }

    /// The peers that take private transactions.
    pub fn get_private_transaction_peers(&self) -> (r: Vec<PeerId>)
        ensures
            r@ == crate::propagator::speaking(
                self.peers.entries@,
                crate::primitives::PAR_PROTOCOL_VERSION_3,
            ),
    {
        get_private_transaction_peers(&self.peers)
    }

    /// Picks at random the peers that news is sent to: as many as the
    /// rounded square root of their number, within the least and the most,
    /// or all where there are fewer.
    pub fn select_random_peers(&mut self, peers: &Vec<PeerId>) -> (r: Vec<PeerId>)
        ensures
            *final(self) == (ChainSync { random: final(self).random, ..*old(self) }),
            crate::propagator::is_selection(peers@, r@),
            peers@.len() >= crate::primitives::MIN_PEERS_PROPAGATION
                ==> crate::propagator::is_width(
                peers@.len(),
                r@.len(),
            ),
            peers@.len() < crate::primitives::MIN_PEERS_PROPAGATION ==> r@.len() == peers@.len(),
    {
        select_random_peers(&mut self.random, peers)
    }

    /// Sends the same packet to each of the given peers, in their order.
    pub fn send_to_all(&mut self, peers: &Vec<PeerId>, packet_id: PacketId, data: &Vec<u8>)
        requires
            old(self).wf(),
        ensures
            *final(self) == (ChainSync { outbox: final(self).outbox, ..*old(self) }),
            spread(*old(self), *final(self), packet_id, packet_id),
            final(self).outbox@.len() == old(self).outbox@.len() + peers@.len(),
            forall|k: int|
                0 <= k < peers@.len() ==> (#[trigger] final(self).outbox@[old(self).outbox@.len()
                    + k]).sends(peers@[k], packet_id, data@),
            sent_to_each(old(self).outbox@, final(self).outbox@, peers@, packet_id, data@),
    {
        proof {
            lemma_spread_refl(*self, packet_id, packet_id);
        }
        let mut p: usize = 0;
        while p < peers.len()
            invariant
                p <= peers@.len(),
                old(self).wf(),
                *self == (ChainSync { outbox: self.outbox, ..*old(self) }),
                spread(*old(self), *self, packet_id, packet_id),
                self.outbox@.len() == old(self).outbox@.len() + p,
                forall|k: int|
                    0 <= k < p ==> (#[trigger] self.outbox@[old(self).outbox@.len() + k]).sends(
                        peers@[k],
                        packet_id,
                        data@,
                    ),
            decreases peers@.len() - p,
        {
            let ghost before = *self;
            self.send_packet(peers[p], packet_id, slice_to_vec(data.as_slice()));
            proof {
                lemma_spread_trans(*old(self), before, *self, packet_id, packet_id);
                assert forall|k: int| 0 <= k < p + 1 implies (#[trigger] self.outbox@[old(
                    self,
                ).outbox@.len() + k]).sends(peers@[k], packet_id, data@) by {
                    if k < p {
                        assert(self.outbox@[old(self).outbox@.len() + k] == before.outbox@[old(
                            self,
                        ).outbox@.len() + k]);
                    }
                }
            }
            p += 1;
        }
    }

    /// Whether `n` is this synchroniser after the given peer was told of
    /// the hashes that `told` announces, where there is an announcement: the
    /// head of the peer is the block `best` and the announcement is queued
    /// for it.
    pub open spec fn hashes_told(
        &self,
        n: Self,
        peer_id: PeerId,
        best: H256,
        told: Option<Seq<u8>>,
    ) -> bool {
        match told {
            None => n == *self,
            Some(data) => {
                &&& n == (ChainSync { peers: n.peers, outbox: n.outbox, ..*self })
                &&& n.peers.entries@ == with_head_at(self.peers.entries@, peer_id, best)
                &&& n.outbox@.len() == self.outbox@.len() + 1
                &&& self.outbox@.is_prefix_of(n.outbox@)
                &&& n.outbox@.last().sends(peer_id, NEW_BLOCK_HASHES_PACKET, data)
            },
        }
    }

    /// Whether `n` is this synchroniser after each of the given peers in
    /// turn was told of the hashes that the chain client told of for it,
    /// `sent` of them in all: see `hashes_told`.
    pub open spec fn hashes_spread(&self, n: Self, peers: Seq<PeerId>, best: H256, sent: nat)
        -> bool
        decreases peers.len(),
    {
        if peers.len() == 0 {
            n == *self && sent == 0
        } else {
            exists|mid: Self, told: Option<Seq<u8>>|
                {
                    &&& #[trigger] mid.hashes_told(n, peers.last(), best, told)
                    &&& told_by_chain(told)
                    &&& told is Some ==> sent >= 1
                    &&& self.hashes_spread(
                        mid,
                        peers.drop_last(),
                        best,
                        if told is Some {
                            (sent - 1) as nat
                        } else {
                            sent
                        },
                    )
                }
        }
    }

    /// Announces to the given peers the hashes of the blocks from the parent
    /// of our best block to our best block, as far as the chain client
    /// tells them: see `hashes_spread`.  The answer is the number of peers
    /// that were told.
    pub fn propagate_new_hashes<I: SyncIo>(
        &mut self,
        chain_info: &ChainInfo,
        io: &mut I,
        peers: &Vec<PeerId>,
    ) -> (sent: usize)
        requires
            old(self).wf(),
        ensures
            spread(*old(self), *final(self), NEW_BLOCK_HASHES_PACKET, NEW_BLOCK_HASHES_PACKET),
            heads_toward(
                old(self).peers.entries@,
                final(self).peers.entries@,
                chain_info.best_block_hash,
            ),
            final(self).last_sent_block_number == old(self).last_sent_block_number,
            final(self).outbox@.len() == old(self).outbox@.len() + sent,
            sent <= peers@.len(),
            all_sent_to(
                final(self).outbox@,
                old(self).outbox@.len() as int,
                peers@,
                NEW_BLOCK_HASHES_PACKET,
            ),
            old(self).hashes_spread(
                *final(self),
                peers@,
                chain_info.best_block_hash,
                sent as nat,
            ),
    {
        let mut sent: usize = 0;
        let last_parent = io.best_block_parent();
        proof {
            lemma_spread_refl(*self, NEW_BLOCK_HASHES_PACKET, NEW_BLOCK_HASHES_PACKET);
            assert(peers@.subrange(0, 0) =~= Seq::<PeerId>::empty());
        }
        let mut p: usize = 0;
        while p < peers.len()
            invariant
                p <= peers@.len(),
                sent <= p,
                old(self).wf(),
                spread(*old(self), *self, NEW_BLOCK_HASHES_PACKET, NEW_BLOCK_HASHES_PACKET),
                heads_toward(
                    old(self).peers.entries@,
                    self.peers.entries@,
                    chain_info.best_block_hash,
                ),
                self.last_sent_block_number == old(self).last_sent_block_number,
                self.outbox@.len() == old(self).outbox@.len() + sent,
                all_sent_to(
                    self.outbox@,
                    old(self).outbox@.len() as int,
                    peers@,
                    NEW_BLOCK_HASHES_PACKET,
                ),
                old(self).hashes_spread(
                    *self,
                    peers@.subrange(0, p as int),
                    chain_info.best_block_hash,
                    sent as nat,
                ),
            decreases peers@.len() - p,
        {
            let peer_id = peers[p];
            let ghost before = *self;
            let ghost sent_before = sent;
            let found = Self::create_new_hashes_rlp(io, &last_parent, &chain_info.best_block_hash);
            let ghost told = payload(found);
            if let Some(rlp) = found {
                let ghost g0 = *self;
                self.move_head(peer_id, chain_info.best_block_hash);
                let ghost g1 = *self;
                self.send_packet(peer_id, NEW_BLOCK_HASHES_PACKET, rlp);
                proof {
                    assert(spread(g0, g1, NEW_BLOCK_HASHES_PACKET, NEW_BLOCK_HASHES_PACKET));
                    lemma_spread_trans(
                        *old(self),
                        g0,
                        g1,
                        NEW_BLOCK_HASHES_PACKET,
                        NEW_BLOCK_HASHES_PACKET,
                    );
                    lemma_spread_trans(
                        *old(self),
                        g1,
                        *self,
                        NEW_BLOCK_HASHES_PACKET,
                        NEW_BLOCK_HASHES_PACKET,
                    );
                    lemma_new_action_kept(
                        g1.outbox@,
                        self.outbox@,
                        old(self).outbox@.len() as int,
                        peers@,
                        p as int,
                        NEW_BLOCK_HASHES_PACKET,
                    );
                }
                sent += 1;
            }
            proof {
                let upto = peers@.subrange(0, p + 1);
                assert(upto.drop_last() =~= peers@.subrange(0, p as int));
                assert(upto.last() == peer_id);
                assert(told_by_chain(told));
                assert(before.hashes_told(*self, peer_id, chain_info.best_block_hash, told));
                assert(old(self).hashes_spread(
                    before,
                    upto.drop_last(),
                    chain_info.best_block_hash,
                    sent_before as nat,
                ));
            }
            p += 1;
        }
        proof {
            assert(peers@.subrange(0, peers@.len() as int) =~= peers@);
        }
        sent
    }

    /// Whether `n` is this synchroniser after the news of the best block
    /// that `info` tells of was spread, with `sealed` blocks sealed here.
    ///
    /// The best block is the one that was announced last from now on.
    /// Where it is too far from the one that was announced last, nothing
    /// else is done.  Else packets go to peers whose head was another
    /// block, and to nobody else, and a head that moves, moves to the best
    /// block; with blocks sealed here, the head of every peer is the best
    /// block afterwards.
    pub open spec fn latest_spread(&self, n: Self, info: ChainInfo, sealed: nat) -> bool {
        let peers = crate::propagator::lagging(self.peers.entries@, info.best_block_hash);
        &&& spread(*self, n, NEW_BLOCK_PACKET, NEW_BLOCK_HASHES_PACKET)
        &&& n.last_sent_block_number == info.best_block_number
        &&& if spec_distance(info.best_block_number, self.last_sent_block_number)
            >= MAX_PEER_LAG_PROPAGATION {
            n == (ChainSync { last_sent_block_number: info.best_block_number, ..*self })
        } else {
            &&& heads_toward(self.peers.entries@, n.peers.entries@, info.best_block_hash)
            &&& sent_among(
                n.outbox@,
                self.outbox@.len() as int,
                peers,
                NEW_BLOCK_PACKET,
                NEW_BLOCK_HASHES_PACKET,
            )
            &&& sealed > 0 ==> forall|i: int|
                0 <= i < n.peers.entries@.len()
                    ==> (#[trigger] n.peers.entries@[i]).value.latest_hash
                    == info.best_block_hash
            &&& exists|
                first: Self,
                drawn: Self,
                last: Self,
                lucky: Seq<PeerId>,
                sent: nat,
                told: Seq<Option<Seq<u8>>>,
            |
                #[trigger] self.news_steps(
                    first,
                    drawn,
                    last,
                    lucky,
                    sent,
                    told,
                    info.best_block_hash,
                    sealed,
                ) && n == (ChainSync {
                    last_sent_block_number: info.best_block_number,
                    ..last
                })
        }
    }

    /// Whether `last` is this synchroniser after the news of the block
    /// `best` was spread among the peers whose head was another block.
    ///
    /// Without blocks sealed here, those peers are told the hashes, `sent`
    /// of them (`first`); then some of them are picked at random (`drawn`,
    /// `lucky`) and sent the one announcement of our best block.  With
    /// `sealed` blocks sealed here, their announcements are sent to all
    /// those peers (`first`), and then the hashes.  `told` are the
    /// announcements of blocks as they came of what the chain client
    /// handed out.
    pub open spec fn news_steps(
        &self,
        first: Self,
        drawn: Self,
        last: Self,
        lucky: Seq<PeerId>,
        sent: nat,
        told: Seq<Option<Seq<u8>>>,
        best: H256,
        sealed: nat,
    ) -> bool {
        let peers = crate::propagator::lagging(self.peers.entries@, best);
        if sealed == 0 {
            &&& self.hashes_spread(first, peers, best, sent)
            &&& drawn == (ChainSync { random: drawn.random, ..first })
            &&& picked_from(peers, lucky)
            &&& told.len() == 1
            &&& drawn.blocks_spread(last, lucky, best, told)
        } else {
            &&& told.len() == sealed
            &&& self.blocks_spread(first, peers, best, told)
            &&& drawn == first
            &&& lucky == peers
            &&& first.hashes_spread(last, peers, best, sent)
        }
    }

    /// Spreads the news of our best block, unless it is too far from the
    /// block that was announced last.  Without sealed blocks, the peers
    /// whose head is another block are told the hashes, and some of them,
    /// picked at random, are sent the block; sealed blocks are sent to all
    /// those peers, and then the hashes.  The best block is the one that
    /// was announced last from now on.
    pub fn propagate_latest_blocks<I: SyncIo>(&mut self, io: &mut I, sealed: &Vec<H256>)
        requires
            old(self).wf(),
        ensures
            spread(*old(self), *final(self), NEW_BLOCK_PACKET, NEW_BLOCK_HASHES_PACKET),
            exists|info: ChainInfo| #[trigger]
                old(self).latest_spread(*final(self), info, sealed@.len() as nat),
    {
        let chain_info = io.chain_info();
        let ghost best = chain_info.best_block_hash;
        let ghost from = old(self).outbox@.len() as int;
        proof {
            lemma_spread_refl(*self, NEW_BLOCK_PACKET, NEW_BLOCK_HASHES_PACKET);
        }
        if distance(chain_info.best_block_number, self.last_sent_block_number)
            < MAX_PEER_LAG_PROPAGATION {
            let peers = get_lagging_peers(&self.peers, &chain_info);
            if sealed.len() == 0 {
                let told_hashes = self.propagate_new_hashes(&chain_info, io, &peers);
                let ghost g1 = *self;
                let lucky = select_random_peers(&mut self.random, &peers);
                let ghost g2 = *self;
                let _ = self.propagate_blocks(&chain_info, io, sealed, &lucky);
                proof {
                    let told = choose|told: Seq<Option<Seq<u8>>>|
                        told.len() == 1 && #[trigger] g2.blocks_spread(*self, lucky@, best, told);
                    assert(old(self).news_steps(
                        g1,
                        g2,
                        *self,
                        lucky@,
                        told_hashes as nat,
                        told,
                        best,
                        0,
                    ));
                    lemma_spread_widen(*old(self), g1, NEW_BLOCK_HASHES_PACKET, NEW_BLOCK_PACKET);
                    assert(spread(g1, g2, NEW_BLOCK_PACKET, NEW_BLOCK_HASHES_PACKET));
                    lemma_spread_widen(g2, *self, NEW_BLOCK_PACKET, NEW_BLOCK_HASHES_PACKET);
                    lemma_spread_swap(*old(self), g1, NEW_BLOCK_HASHES_PACKET, NEW_BLOCK_PACKET);
                    lemma_spread_trans(
                        *old(self),
                        g1,
                        g2,
                        NEW_BLOCK_PACKET,
                        NEW_BLOCK_HASHES_PACKET,
                    );
                    lemma_spread_trans(
                        *old(self),
                        g2,
                        *self,
                        NEW_BLOCK_PACKET,
                        NEW_BLOCK_HASHES_PACKET,
                    );
                    assert forall|k: int| 0 <= k && from <= k < self.outbox@.len() implies
                        sent_to_one_of(#[trigger] self.outbox@[k], peers@, NEW_BLOCK_PACKET)
                        || sent_to_one_of(self.outbox@[k], peers@, NEW_BLOCK_HASHES_PACKET) by {
                        if k < g1.outbox@.len() {
                            assert(self.outbox@[k] == g1.outbox@[k]);
                        } else {
                            lemma_sent_to_picked(
                                self.outbox@[k],
                                peers@,
                                lucky@,
                                NEW_BLOCK_PACKET,
                            );
                        }
                    }
                }
            } else {
                let _ = self.propagate_blocks(&chain_info, io, sealed, &peers);
                let ghost g1 = *self;
                let told_hashes = self.propagate_new_hashes(&chain_info, io, &peers);
                proof {
                    let told = choose|told: Seq<Option<Seq<u8>>>|
                        told.len() == sealed@.len() && #[trigger] old(self).blocks_spread(
                            g1,
                            peers@,
                            best,
                            told,
                        );
                    assert(old(self).news_steps(
                        g1,
                        g1,
                        *self,
                        peers@,
                        told_hashes as nat,
                        told,
                        best,
                        sealed@.len() as nat,
                    ));
                    lemma_spread_widen(*old(self), g1, NEW_BLOCK_PACKET, NEW_BLOCK_HASHES_PACKET);
                    lemma_spread_widen(g1, *self, NEW_BLOCK_HASHES_PACKET, NEW_BLOCK_PACKET);
                    lemma_spread_swap(g1, *self, NEW_BLOCK_HASHES_PACKET, NEW_BLOCK_PACKET);
                    lemma_spread_trans(
                        *old(self),
                        g1,
                        *self,
                        NEW_BLOCK_PACKET,
                        NEW_BLOCK_HASHES_PACKET,
                    );
                    assert forall|k: int| 0 <= k && from <= k < self.outbox@.len() implies
                        sent_to_one_of(#[trigger] self.outbox@[k], peers@, NEW_BLOCK_PACKET)
                        || sent_to_one_of(self.outbox@[k], peers@, NEW_BLOCK_HASHES_PACKET) by {
                        if k < g1.outbox@.len() {
                            assert(self.outbox@[k] == g1.outbox@[k]);
                        }
                    }
                    let o = old(self).peers.entries@;
                    let m = g1.peers.entries@;
                    lemma_same_ids_distinct(o, m);
                    assert forall|i: int| 0 <= i < m.len()
                        implies (#[trigger] m[i]).value.latest_hash
                        == best by {
                        if o[i].value.latest_hash != best {
                            lemma_ids_where_has(o, |p: PeerInfo| p.latest_hash != best, i);
                            let k = choose|k: int|
                                0 <= k < peers@.len() && #[trigger] peers@[k] == o[i].id;
                            assert(old(self).peers.has(peers@[k]));
                            assert(m[i].id == o[i].id);
                            crate::peer_map::lemma_position_unique(m, i);
                        }
                    }
                }
            }
        }
        self.last_sent_block_number = chain_info.best_block_number;
        proof {
            assert(old(self).latest_spread(*self, chain_info, sealed@.len() as nat));
        }
    }

    /// Sends each of the proposed blocks to every peer that takes consensus
    /// messages.
    pub fn propagate_proposed_blocks<I: SyncIo>(&mut self, io: &mut I, proposed: &Vec<Vec<u8>>)
        requires
            old(self).wf(),
        ensures
            *final(self) == (ChainSync { outbox: final(self).outbox, ..*old(self) }),
            spread(*old(self), *final(self), NEW_BLOCK_PACKET, NEW_BLOCK_PACKET),
            final(self).outbox@.len() == old(self).outbox@.len() + proposed@.len()
                * crate::propagator::speaking(
                old(self).peers.entries@,
                crate::primitives::PAR_PROTOCOL_VERSION_2,
            ).len(),
            exists|difficulties: Seq<crate::primitives::U256>| #[trigger]
                blocks_sent(
                    old(self).outbox@,
                    final(self).outbox@,
                    crate::propagator::speaking(
                        old(self).peers.entries@,
                        crate::primitives::PAR_PROTOCOL_VERSION_2,
                    ),
                    crate::packets::raw_items(proposed@),
                    difficulties,
                ),
    {
        let peers = get_consensus_peers(&self.peers);
        let ghost blocks = crate::packets::raw_items(proposed@);
        let ghost mut difficulties: Seq<crate::primitives::U256> = Seq::empty();
        proof {
            lemma_spread_refl(*self, NEW_BLOCK_PACKET, NEW_BLOCK_PACKET);
        }
        let mut b: usize = 0;
        while b < proposed.len()
            invariant
                b <= proposed@.len(),
                old(self).wf(),
                *self == (ChainSync { outbox: self.outbox, ..*old(self) }),
                spread(*old(self), *self, NEW_BLOCK_PACKET, NEW_BLOCK_PACKET),
                self.outbox@.len() == old(self).outbox@.len() + b * peers@.len(),
                blocks == crate::packets::raw_items(proposed@),
                difficulties.len() == b,
                blocks_sent(
                    old(self).outbox@,
                    self.outbox@,
                    peers@,
                    blocks.subrange(0, b as int),
                    difficulties,
                ),
            decreases proposed@.len() - b,
        {
            let difficulty = io.chain_info().total_difficulty;
            let rlp = create_block_rlp(&proposed[b], difficulty);
            let ghost before = *self;
            let ghost earlier = difficulties;
            self.send_to_all(&peers, NEW_BLOCK_PACKET, &rlp);
            proof {
                lemma_spread_trans(*old(self), before, *self, NEW_BLOCK_PACKET, NEW_BLOCK_PACKET);
                assert((b + 1) * peers@.len() == b * peers@.len() + peers@.len())
                    by (nonlinear_arith);
                difficulties = difficulties.push(difficulty);
                let upto = blocks.subrange(0, b + 1);
                assert(upto.drop_last() =~= blocks.subrange(0, b as int));
                assert(difficulties.drop_last() =~= earlier);
                assert(upto.last() == proposed@[b as int]@);
                assert(sent_to_each(
                    before.outbox@,
                    self.outbox@,
                    peers@,
                    NEW_BLOCK_PACKET,
                    rlp@,
                ));
                assert(crate::propagator::announces_block(rlp@, upto.last(), difficulties.last()));
            }
            b += 1;
        }
        proof {
            assert(blocks.subrange(0, blocks.len() as int) =~= blocks);
        }
    }

    /// Sends a consensus message to some of the peers that take such, picked
    /// at random: see `picked_from`.
    pub fn propagate_consensus_packet(&mut self, packet: Vec<u8>)
        requires
            old(self).wf(),
        ensures
            spread(*old(self), *final(self), CONSENSUS_DATA_PACKET, CONSENSUS_DATA_PACKET),
            *final(self) == (ChainSync {
                outbox: final(self).outbox,
                random: final(self).random,
                ..*old(self)
            }),
            exists|lucky: Seq<PeerId>|
                picked_from(
                    crate::propagator::speaking(
                        old(self).peers.entries@,
                        crate::primitives::PAR_PROTOCOL_VERSION_2,
                    ),
                    lucky,
                ) && #[trigger] sent_to_each(
                    old(self).outbox@,
                    final(self).outbox@,
                    lucky,
                    CONSENSUS_DATA_PACKET,
                    packet@,
                ),
    {
        let peers = get_consensus_peers(&self.peers);
        let lucky = select_random_peers(&mut self.random, &peers);
        let ghost g0 = *self;
        self.send_to_all(&lucky, CONSENSUS_DATA_PACKET, &packet);
        proof {
            assert(spread(*old(self), g0, CONSENSUS_DATA_PACKET, CONSENSUS_DATA_PACKET));
            lemma_spread_trans(*old(self), g0, *self, CONSENSUS_DATA_PACKET, CONSENSUS_DATA_PACKET);
            assert(picked_from(peers@, lucky@));
            assert(sent_to_each(
                old(self).outbox@,
                self.outbox@,
                lucky@,
                CONSENSUS_DATA_PACKET,
                packet@,
            ));
        }
    }

    /// Sends a private transaction to some of the peers that take such,
    /// picked at random: see `picked_from`.
    pub fn propagate_private_transaction(&mut self, packet: Vec<u8>)
        requires
            old(self).wf(),
        ensures
            spread(*old(self), *final(self), PRIVATE_TRANSACTION_PACKET,
                PRIVATE_TRANSACTION_PACKET),
            *final(self) == (ChainSync {
                outbox: final(self).outbox,
                random: final(self).random,
                ..*old(self)
            }),
            exists|lucky: Seq<PeerId>|
                picked_from(
                    crate::propagator::speaking(
                        old(self).peers.entries@,
                        crate::primitives::PAR_PROTOCOL_VERSION_3,
                    ),
                    lucky,
                ) && #[trigger] sent_to_each(
                    old(self).outbox@,
                    final(self).outbox@,
                    lucky,
                    PRIVATE_TRANSACTION_PACKET,
                    packet@,
                ),
    {
        let peers = get_private_transaction_peers(&self.peers);
        let lucky = select_random_peers(&mut self.random, &peers);
        let ghost g0 = *self;
        self.send_to_all(&lucky, PRIVATE_TRANSACTION_PACKET, &packet);
        proof {
            assert(spread(*old(self), g0, PRIVATE_TRANSACTION_PACKET, PRIVATE_TRANSACTION_PACKET));
            lemma_spread_trans(*old(self), g0, *self, PRIVATE_TRANSACTION_PACKET,
                PRIVATE_TRANSACTION_PACKET);
            assert(picked_from(peers@, lucky@));
            assert(sent_to_each(
                old(self).outbox@,
                self.outbox@,
                lucky@,
                PRIVATE_TRANSACTION_PACKET,
                packet@,
            ));
        }
    }

    /// Sends a signed private transaction to some of the peers that take
    /// such, picked at random: see `picked_from`.
    pub fn propagate_signed_private_transaction(&mut self, packet: Vec<u8>)
        requires
            old(self).wf(),
        ensures
            spread(*old(self), *final(self), SIGNED_PRIVATE_TRANSACTION_PACKET,
                SIGNED_PRIVATE_TRANSACTION_PACKET),
            *final(self) == (ChainSync {
                outbox: final(self).outbox,
                random: final(self).random,
                ..*old(self)
            }),
            exists|lucky: Seq<PeerId>|
                picked_from(
                    crate::propagator::speaking(
                        old(self).peers.entries@,
                        crate::primitives::PAR_PROTOCOL_VERSION_3,
                    ),
                    lucky,
                ) && #[trigger] sent_to_each(
                    old(self).outbox@,
                    final(self).outbox@,
                    lucky,
                    SIGNED_PRIVATE_TRANSACTION_PACKET,
                    packet@,
                ),
    {
        let peers = get_private_transaction_peers(&self.peers);
        let lucky = select_random_peers(&mut self.random, &peers);
        let ghost g0 = *self;
        self.send_to_all(&lucky, SIGNED_PRIVATE_TRANSACTION_PACKET, &packet);
        proof {
            assert(spread(*old(self), g0, SIGNED_PRIVATE_TRANSACTION_PACKET,
                SIGNED_PRIVATE_TRANSACTION_PACKET));
            lemma_spread_trans(*old(self), g0, *self, SIGNED_PRIVATE_TRANSACTION_PACKET,
                SIGNED_PRIVATE_TRANSACTION_PACKET);
            assert(picked_from(peers@, lucky@));
            assert(sent_to_each(
                old(self).outbox@,
                self.outbox@,
                lucky@,
                SIGNED_PRIVATE_TRANSACTION_PACKET,
                packet@,
            ));
        }
    }
}

/// News of one kind is news of that kind or another.
pub proof fn lemma_spread_widen<D: BlockDownloader>(
    o: ChainSync<D>,
    n: ChainSync<D>,
    a: PacketId,
    b: PacketId,
)
    requires
        spread(o, n, a, a),
    ensures
        spread(o, n, a, b),
{
    assert forall|k: int| 0 <= k && o.outbox@.len() <= k < n.outbox@.len() implies (
    #[trigger] n.outbox@[k]).sends_either(a, b) by {
        assert(n.outbox@[k].sends_either(a, a));
    }
}

/// The two kinds of news can be named in either order.
pub proof fn lemma_spread_swap<D: BlockDownloader>(
    o: ChainSync<D>,
    n: ChainSync<D>,
    a: PacketId,
    b: PacketId,
)
    requires
        spread(o, n, a, b),
    ensures
        spread(o, n, b, a),
{
    assert forall|k: int| 0 <= k && o.outbox@.len() <= k < n.outbox@.len() implies (
    #[trigger] n.outbox@[k]).sends_either(b, a) by {
        assert(n.outbox@[k].sends_either(a, b));
    }
}

} // verus!
