//! What drives the synchroniser from outside: packets from peers, the tick
//! of the clock, and news from the chain.

use vstd::prelude::*;
use crate::action::{no_requests, Action};
use crate::chain_sync::{lemma_prefix_trans, ChainSync};
use crate::codec::PacketDecodeError;
use crate::env::{BlockDownloader, SyncIo};
use crate::peer::PeerInfo;
use crate::peer_map::{
    lemma_position_unique,
    lemma_same_ids_distinct,
    lemma_same_ids_has,
    position,
    same_ids,
    Entry,
};
use crate::primitives::{H256, PacketId, PeerId, Timestamp};
use crate::primitives::{
    BLOCK_BODIES_PACKET,
    BLOCK_HEADERS_PACKET,
    NEW_BLOCK_HASHES_PACKET,
    NEW_BLOCK_PACKET,
    PRIVATE_TRANSACTION_PACKET,
    RECEIPTS_PACKET,
    SIGNED_PRIVATE_TRANSACTION_PACKET,
    SNAPSHOT_DATA_PACKET,
    SNAPSHOT_MANIFEST_PACKET,
    STATUS_PACKET,
    STATUS_TIMEOUT,
    TRANSACTIONS_PACKET,
};
use crate::propagation::{lemma_spread_asks_nothing, lemma_spread_trans, lemma_spread_widen, spread};
use crate::relations::{live, renewed};
use crate::status::{SyncState, SyncStatus};
use crate::upkeep::{lemma_queued_extends, queued_since};

verus! {

/// Whether a peer that was greeted at `since` has kept us waiting for its
/// status for too long at `now`.
pub open spec fn spec_greeting_timed_out(since: Timestamp, now: Timestamp) -> bool {
    now > since && now - since > STATUS_TIMEOUT
}

pub fn greeting_timed_out(since: Timestamp, now: Timestamp) -> (r: bool)
    ensures
        r == spec_greeting_timed_out(since, now),
{
    now > since && now - since > STATUS_TIMEOUT
}

/// Whether a packet kind is one that `on_packet` has a handler for.
pub open spec fn is_handled(packet_id: PacketId) -> bool {
    packet_id == STATUS_PACKET || packet_id == TRANSACTIONS_PACKET || packet_id
        == BLOCK_HEADERS_PACKET || packet_id == BLOCK_BODIES_PACKET || packet_id == RECEIPTS_PACKET
        || packet_id == NEW_BLOCK_PACKET || packet_id == NEW_BLOCK_HASHES_PACKET || packet_id
        == SNAPSHOT_MANIFEST_PACKET || packet_id == SNAPSHOT_DATA_PACKET || packet_id
        == PRIVATE_TRANSACTION_PACKET || packet_id == SIGNED_PRIVATE_TRANSACTION_PACKET
}

/// Whether the records `n` are the records `o` but for the peer at `k`,
/// of which none of the transactions that it was told of is noted any
/// more.
pub open spec fn forgotten_at(o: Seq<Entry<PeerInfo>>, n: Seq<Entry<PeerInfo>>, k: int) -> bool {
    &&& 0 <= k < o.len()
    &&& n.len() == o.len()
    &&& n[k].id == o[k].id
    &&& n[k].value == (PeerInfo {
        last_sent_transactions: n[k].value.last_sent_transactions,
        ..o[k].value
    })
    &&& n[k].value.last_sent_transactions.items@.len() == 0
    &&& forall|j: int| 0 <= j < o.len() && j != k ==> n[j] == o[j]
}

/// The peers whose request is given up at `now`, in the order of the
/// registry.
pub open spec fn overdue(s: Seq<Entry<PeerInfo>>, now: Timestamp) -> Seq<PeerId> {
    crate::propagator::ids_where(s, |p: PeerInfo| p.spec_timed_out(now))
}

/// The peers that were greeted and have kept us waiting for their status
/// for too long at `now`, in the order in which they were greeted.
pub open spec fn late_greetings(s: Seq<Entry<Timestamp>>, now: Timestamp) -> Seq<PeerId>
    decreases s.len(),
{
    if s.len() == 0 {
        Seq::empty()
    } else if spec_greeting_timed_out(s.last().value, now) {
        late_greetings(s.drop_last(), now).push(s.last().id)
    } else {
        late_greetings(s.drop_last(), now)
    }
}

/// A disconnection for each of the given peers, in their order.
pub open spec fn disconnections(peers: Seq<PeerId>) -> Seq<Action> {
    Seq::new(peers.len(), |k: int| Action::Disconnect { peer: peers[k] })
}

impl<D: BlockDownloader> ChainSync<D> {
    /// Whether `n` is this synchroniser after it was noted of each of the
    /// given peers in turn that it has left: see `peer_left`.
    pub open spec fn all_left(&self, n: Self, peers: Seq<PeerId>, now: Timestamp) -> bool
        decreases peers.len(),
    {
        if peers.len() == 0 {
            n == *self
        } else {
            exists|mid: Self, gone: Self|
                {
                    &&& self.all_left(mid, peers.drop_last(), now)
                    &&& #[trigger] mid.peer_left(gone, n, peers.last(), now)
                }
        }
    }

    /// Whether `n` is this synchroniser after the regular look at the
    /// peers at `now`: the peers whose request has been in flight for
    /// longer than its kind allows are disconnected (`cut`) and dropped as
    /// peers that have left (`left`), and the peers that were greeted and
    /// have not told their status in time are disconnected.
    pub open spec fn peers_kept_up(&self, cut: Self, left: Self, n: Self, now: Timestamp) -> bool {
        let late = overdue(self.peers.entries@, now);
        &&& cut == (ChainSync { outbox: cut.outbox, ..*self })
        &&& cut.outbox@ == self.outbox@ + disconnections(late)
        &&& cut.all_left(left, late, now)
        &&& n == (ChainSync { outbox: n.outbox, ..left })
        &&& n.outbox@ == left.outbox@ + disconnections(
            late_greetings(left.handshaking_peers.entries@, now),
        )
    }

    /// Whether `n` is this synchroniser after a packet from a peer was
    /// dealt with, with `r` as the outcome.  A packet other than a status
    /// from a peer that is not registered is dropped, as is one of a kind
    /// that has no handler; any other is dealt with as its kind says.
    pub open spec fn handles_packet(
        &self,
        n: Self,
        peer: PeerId,
        packet_id: PacketId,
        data: Seq<u8>,
        now: Timestamp,
        r: Result<(), PacketDecodeError>,
    ) -> bool {
        if packet_id != STATUS_PACKET && !self.peers.has(peer) {
            r is Ok && n == *self
        } else if packet_id == STATUS_PACKET {
            self.handles_status(n, peer, data, now, r)
        } else if packet_id == TRANSACTIONS_PACKET {
            n == *self && exists|queue_empty: bool| #[trigger]
                self.handles_transactions(peer, data, queue_empty, r)
        } else if packet_id == BLOCK_HEADERS_PACKET {
            self.handles_headers(n, peer, data, now, r)
        } else if packet_id == BLOCK_BODIES_PACKET {
            self.handles_bodies(n, peer, data, now, r)
        } else if packet_id == RECEIPTS_PACKET {
            self.handles_receipts(n, peer, data, now, r)
        } else if packet_id == NEW_BLOCK_PACKET {
            self.handles_new_block(n, peer, data, now, r)
        } else if packet_id == NEW_BLOCK_HASHES_PACKET {
            self.handles_new_hashes(n, peer, data, now, r)
        } else if packet_id == SNAPSHOT_MANIFEST_PACKET {
            self.handles_manifest(n, peer, data, now, r)
        } else if packet_id == SNAPSHOT_DATA_PACKET {
            self.handles_chunk(n, peer, data, now, r)
        } else {
            r is Ok && n == *self
        }
    }

    /// Takes a packet from a peer and hands it to the handler of its kind:
    /// see `handles_packet`.  An error says that the packet could not be
    /// decoded.
    pub fn on_packet<I: SyncIo>(
        &mut self,
        io: &mut I,
        peer: PeerId,
        packet_id: PacketId,
        data: &[u8],
        now: Timestamp,
    ) -> (r: Result<(), PacketDecodeError>)
        requires
            old(self).wf(),
        ensures
            final(self).wf(),
            old(self).outbox@.is_prefix_of(final(self).outbox@),
            (packet_id != STATUS_PACKET && !old(self).peers.has(peer)) || !is_handled(packet_id)
                ==> r is Ok && *final(self) == *old(self),
            forall|other: PeerId|
                other != peer ==> final(self).peers.has(other) == old(self).peers.has(other),
            packet_id != STATUS_PACKET ==> same_ids(
                old(self).peers.entries@,
                final(self).peers.entries@,
            ),
            old(self).handles_packet(*final(self), peer, packet_id, data@, now, r),
    {
        if packet_id != STATUS_PACKET && !self.peers.contains_key(peer) {
            return Ok(());
        }
        let r = if packet_id == STATUS_PACKET {
            self.on_peer_status(io, peer, data, now)
        } else if packet_id == TRANSACTIONS_PACKET {
            self.on_peer_transactions(io, peer, data)
        } else if packet_id == BLOCK_HEADERS_PACKET {
            self.on_peer_block_headers(io, peer, data, now)
        } else if packet_id == BLOCK_BODIES_PACKET {
            self.on_peer_block_bodies(io, peer, data, now)
        } else if packet_id == RECEIPTS_PACKET {
            self.on_peer_block_receipts(io, peer, data, now)
        } else if packet_id == NEW_BLOCK_PACKET {
            self.on_peer_new_block(io, peer, data, now)
        } else if packet_id == NEW_BLOCK_HASHES_PACKET {
            self.on_peer_new_hashes(io, peer, data, now)
        } else if packet_id == SNAPSHOT_MANIFEST_PACKET {
            self.on_snapshot_manifest(io, peer, data, now)
        } else if packet_id == SNAPSHOT_DATA_PACKET {
            self.on_snapshot_data(io, peer, data, now)
        } else if packet_id == PRIVATE_TRANSACTION_PACKET {
            self.on_private_transaction(io, peer, data)
        } else if packet_id == SIGNED_PRIVATE_TRANSACTION_PACKET {
            self.on_signed_private_transaction(io, peer, data)
        } else {
            Ok(())
        };
        proof {
            if packet_id != STATUS_PACKET {
                assert(same_ids(old(self).peers.entries@, self.peers.entries@));
                assert forall|other: PeerId| self.peers.has(other) == old(self).peers.has(
                    other,
                ) by {
                    lemma_same_ids_has(old(self).peers.entries@, self.peers.entries@, other);
                }
            }
        }
        r
    }

    /// The regular look at the peers.  A peer whose request has been in
    /// flight for longer than its kind allows is disconnected and dropped
    /// as one that has left; a peer that was greeted and has not told its
    /// status in time is disconnected.
    pub fn maintain_peers<I: SyncIo>(&mut self, io: &mut I, now: Timestamp)
        requires
            old(self).wf(),
        ensures
            final(self).wf(),
            old(self).outbox@.is_prefix_of(final(self).outbox@),
            forall|i: int|
                0 <= i < old(self).peers.entries@.len() ==> {
                    let e = #[trigger] old(self).peers.entries@[i];
                    if e.value.spec_timed_out(now) {
                        !final(self).peers.has(e.id) && !final(self).active_peers.has(e.id)
                            && queued_since(
                            final(self).outbox@,
                            old(self).outbox@.len() as int,
                            Action::Disconnect { peer: e.id },
                        )
                    } else {
                        final(self).peers.has(e.id)
                    }
                },
            forall|id: PeerId| final(self).peers.has(id) ==> old(self).peers.has(id),
            forall|j: int|
                0 <= j < old(self).handshaking_peers.entries@.len() && spec_greeting_timed_out(
                    (#[trigger] old(self).handshaking_peers.entries@[j]).value,
                    now,
                ) ==> queued_since(
                    final(self).outbox@,
                    old(self).outbox@.len() as int,
                    Action::Disconnect { peer: old(self).handshaking_peers.entries@[j].id },
                ),
            exists|cut: Self, left: Self| #[trigger]
                old(self).peers_kept_up(cut, left, *final(self), now),
    {
        let mut aborting: Vec<PeerId> = Vec::new();
        let ghost late = |p: PeerInfo| p.spec_timed_out(now);
        proof {
            assert(old(self).peers.entries@.subrange(0, 0) =~= Seq::<Entry<PeerInfo>>::empty());
            assert(self.outbox@ =~= old(self).outbox@ + disconnections(aborting@));
        }
        let mut i: usize = 0;
        while i < self.peers.entries.len()
            invariant
                i <= self.peers.entries@.len(),
                old(self).wf(),
                late == |p: PeerInfo| p.spec_timed_out(now),
                aborting@ == crate::propagator::ids_where(
                    old(self).peers.entries@.subrange(0, i as int),
                    late,
                ),
                self.outbox@ == old(self).outbox@ + disconnections(aborting@),
                *self == (ChainSync { outbox: self.outbox, ..*old(self) }),
                old(self).outbox@.is_prefix_of(self.outbox@),
                forall|k: int|
                    0 <= k < i && (#[trigger] old(self).peers.entries@[k]).value.spec_timed_out(now)
                        ==> aborting@.contains(old(self).peers.entries@[k].id),
                forall|k: int|
                    0 <= k < aborting@.len() ==> old(self).peers.has(#[trigger] aborting@[k])
                        && old(self).peer(aborting@[k]).spec_timed_out(now) && queued_since(
                        self.outbox@,
                        old(self).outbox@.len() as int,
                        Action::Disconnect { peer: aborting@[k] },
                    ),
            decreases self.peers.entries@.len() - i,
        {
            proof {
                assert(old(self).peers.entries@.subrange(0, i + 1).drop_last()
                    =~= old(self).peers.entries@.subrange(0, i as int));
            }
            if self.peers.entries[i].value.timed_out(now) {
                let id = self.peers.entries[i].id;
                let ghost before = self.outbox@;
                let ghost listed = aborting@;
                self.outbox.push(Action::Disconnect { peer: id });
                aborting.push(id);
                proof {
                    assert(self.outbox@ =~= old(self).outbox@ + disconnections(aborting@));
                    lemma_position_unique(old(self).peers.entries@, i as int);
                    lemma_prefix_trans(old(self).outbox@, before, self.outbox@);
                    assert(self.outbox@[before.len() as int] == (Action::Disconnect { peer: id }));
                    assert forall|k: int| 0 <= k < aborting@.len() implies old(self).peers.has(
                        #[trigger] aborting@[k],
                    ) && old(self).peer(aborting@[k]).spec_timed_out(now) && queued_since(
                        self.outbox@,
                        old(self).outbox@.len() as int,
                        Action::Disconnect { peer: aborting@[k] },
                    ) by {
                        if k < listed.len() {
                            assert(aborting@[k] == listed[k]);
                            lemma_queued_extends(
                                before,
                                self.outbox@,
                                old(self).outbox@.len() as int,
                                Action::Disconnect { peer: listed[k] },
                            );
                        }
                    }
                    assert(aborting@[listed.len() as int] == id);
                    assert forall|k: int|
                        0 <= k < i + 1 && (#[trigger] old(
                            self,
                        ).peers.entries@[k]).value.spec_timed_out(now) implies aborting@.contains(
                        old(self).peers.entries@[k].id,
                    ) by {
                        if k < i {
                            let j = choose|j: int|
                                0 <= j < listed.len() && listed[j] == old(
                                    self,
                                ).peers.entries@[k].id;
                            assert(aborting@[j] == listed[j]);
                        }
                    }
                }
            }
            i += 1;
        }
        let ghost g1 = *self;
        proof {
            assert(old(self).peers.entries@.subrange(0, old(self).peers.entries@.len() as int)
                =~= old(self).peers.entries@);
            assert(aborting@.subrange(0, 0) =~= Seq::<PeerId>::empty());
        }
        let mut k: usize = 0;
        while k < aborting.len()
            invariant
                k <= aborting@.len(),
                self.wf(),
                old(self).wf(),
                g1.all_left(*self, aborting@.subrange(0, k as int), now),
                forall|j: int| 0 <= j < aborting@.len()
                    ==> old(self).peers.has(#[trigger] aborting@[j]),
                forall|id: PeerId|
                    aborting@.subrange(0, k as int).contains(id) ==> !self.active_peers.has(id),
                old(self).outbox@.is_prefix_of(self.outbox@),
                forall|id: PeerId|
                    self.peers.has(id) == (old(self).peers.has(id) && !aborting@.subrange(
                        0,
                        k as int,
                    ).contains(id)),
                forall|id: PeerId|
                    self.handshaking_peers.has(id) == (old(self).handshaking_peers.has(id)
                        && !aborting@.subrange(0, k as int).contains(id)),
                forall|id: PeerId|
                    self.handshaking_peers.has(id) ==> self.handshaking_peers.value_of(id) == old(
                        self,
                    ).handshaking_peers.value_of(id),
                forall|j: int|
                    0 <= j < aborting@.len() ==> queued_since(
                        self.outbox@,
                        old(self).outbox@.len() as int,
                        Action::Disconnect { peer: #[trigger] aborting@[j] },
                    ),
            decreases aborting@.len() - k,
        {
            let p = aborting[k];
            let ghost before = *self;
            let ghost done = aborting@.subrange(0, k as int);
            let ghost next = aborting@.subrange(0, k + 1);
            self.on_peer_aborting(io, p, now);
            proof {
                lemma_prefix_trans(old(self).outbox@, before.outbox@, self.outbox@);
                assert(next =~= done.push(p));
                assert(next.drop_last() =~= done);
                assert(next.last() == p);
                let gone = choose|gone: Self| #[trigger] before.peer_left(gone, *self, p, now);
                assert(before.peer_left(gone, *self, p, now));
                assert forall|id: PeerId| next.contains(id) == (done.contains(id) || id == p) by {
                    if done.contains(id) {
                        let j = choose|j: int| 0 <= j < done.len() && done[j] == id;
                        assert(next[j] == id);
                    }
                    if id == p {
                        assert(next[k as int] == id);
                    }
                }
                assert forall|j: int| 0 <= j < aborting@.len() implies queued_since(
                    self.outbox@,
                    old(self).outbox@.len() as int,
                    Action::Disconnect { peer: #[trigger] aborting@[j] },
                ) by {
                    lemma_queued_extends(
                        before.outbox@,
                        self.outbox@,
                        old(self).outbox@.len() as int,
                        Action::Disconnect { peer: aborting@[j] },
                    );
                }
            }
            k += 1;
        }
        proof {
            assert(aborting@.subrange(0, aborting@.len() as int) =~= aborting@);
            assert forall|i: int| 0 <= i < old(self).peers.entries@.len() implies {
                let e = #[trigger] old(self).peers.entries@[i];
                if e.value.spec_timed_out(now) {
                    !self.peers.has(e.id) && !self.active_peers.has(e.id) && queued_since(
                        self.outbox@,
                        old(self).outbox@.len() as int,
                        Action::Disconnect { peer: e.id },
                    )
                } else {
                    self.peers.has(e.id)
                }
            } by {
                let e = old(self).peers.entries@[i];
                lemma_position_unique(old(self).peers.entries@, i);
                if e.value.spec_timed_out(now) {
                    let j = choose|j: int| 0 <= j < aborting@.len() && aborting@[j] == e.id;
                    assert(queued_since(
                        self.outbox@,
                        old(self).outbox@.len() as int,
                        Action::Disconnect { peer: aborting@[j] },
                    ));
                } else {
                    if aborting@.contains(e.id) {
                        let j = choose|j: int| 0 <= j < aborting@.len() && aborting@[j] == e.id;
                        assert(old(self).peer(aborting@[j]).spec_timed_out(now));
                    }
                }
            }
        }
        let ghost g2 = *self;
        proof {
            assert(g2.handshaking_peers.entries@.subrange(0, 0) =~= Seq::<
                Entry<Timestamp>,
            >::empty());
            assert(self.outbox@ =~= g2.outbox@ + disconnections(Seq::empty()));
        }
        let mut h: usize = 0;
        while h < self.handshaking_peers.entries.len()
            invariant
                h <= self.handshaking_peers.entries@.len(),
                self.wf(),
                *self == (ChainSync { outbox: self.outbox, ..g2 }),
                self.outbox@ == g2.outbox@ + disconnections(
                    late_greetings(g2.handshaking_peers.entries@.subrange(0, h as int), now),
                ),
                old(self).outbox@.is_prefix_of(self.outbox@),
                g2.outbox@.is_prefix_of(self.outbox@),
                forall|j: int|
                    0 <= j < h && spec_greeting_timed_out(
                        (#[trigger] g2.handshaking_peers.entries@[j]).value,
                        now,
                    ) ==> queued_since(
                        self.outbox@,
                        old(self).outbox@.len() as int,
                        Action::Disconnect { peer: g2.handshaking_peers.entries@[j].id },
                    ),
            decreases self.handshaking_peers.entries@.len() - h,
        {
            proof {
                assert(g2.handshaking_peers.entries@.subrange(0, h + 1).drop_last()
                    =~= g2.handshaking_peers.entries@.subrange(0, h as int));
            }
            if greeting_timed_out(self.handshaking_peers.entries[h].value, now) {
                let id = self.handshaking_peers.entries[h].id;
                let ghost before = self.outbox@;
                self.outbox.push(Action::Disconnect { peer: id });
                proof {
                    assert(self.outbox@ =~= g2.outbox@ + disconnections(
                        late_greetings(g2.handshaking_peers.entries@.subrange(0, h + 1), now),
                    ));
                    lemma_prefix_trans(old(self).outbox@, before, self.outbox@);
                    lemma_prefix_trans(g2.outbox@, before, self.outbox@);
                    assert(self.outbox@[before.len() as int] == (Action::Disconnect { peer: id }));
                    assert forall|j: int|
                        0 <= j < h + 1 && spec_greeting_timed_out(
                            (#[trigger] g2.handshaking_peers.entries@[j]).value,
                            now,
                        ) implies queued_since(
                        self.outbox@,
                        old(self).outbox@.len() as int,
                        Action::Disconnect { peer: g2.handshaking_peers.entries@[j].id },
                    ) by {
                        if j < h {
                            lemma_queued_extends(
                                before,
                                self.outbox@,
                                old(self).outbox@.len() as int,
                                Action::Disconnect { peer: g2.handshaking_peers.entries@[j].id },
                            );
                        }
                    }
                }
            }
            h += 1;
        }
        proof {
            let hs = old(self).handshaking_peers.entries@;
            let cur = g2.handshaking_peers.entries@;
            assert forall|j: int| 0 <= j < hs.len() && spec_greeting_timed_out(
                (#[trigger] hs[j]).value,
                now,
            ) implies queued_since(
                self.outbox@,
                old(self).outbox@.len() as int,
                Action::Disconnect { peer: hs[j].id },
            ) by {
                let id = hs[j].id;
                lemma_position_unique(hs, j);
                if aborting@.contains(id) {
                    let q = choose|q: int| 0 <= q < aborting@.len() && aborting@[q] == id;
                    assert(queued_since(
                        g2.outbox@,
                        old(self).outbox@.len() as int,
                        Action::Disconnect { peer: aborting@[q] },
                    ));
                    lemma_queued_extends(
                        g2.outbox@,
                        self.outbox@,
                        old(self).outbox@.len() as int,
                        Action::Disconnect { peer: id },
                    );
                } else {
                    assert(g2.handshaking_peers.has(id));
                    let q = position(cur, id);
                    assert(cur[q].id == id);
                    assert(g2.handshaking_peers.value_of(id) == old(
                        self,
                    ).handshaking_peers.value_of(id));
                }
            }
            assert(g2.handshaking_peers.entries@.subrange(
                0,
                g2.handshaking_peers.entries@.len() as int,
            ) =~= g2.handshaking_peers.entries@);
            assert(aborting@.subrange(0, aborting@.len() as int) =~= aborting@);
            assert(old(self).peers_kept_up(g1, g2, *self, now));
        }
    }
}

/// Whether the records are the same but for the heads of the peers and for
/// the transactions that they were told of.
pub open spec fn requests_kept(o: Seq<Entry<PeerInfo>>, n: Seq<Entry<PeerInfo>>) -> bool {
    &&& same_ids(o, n)
    &&& forall|i: int|
        0 <= i < o.len() ==> (#[trigger] n[i]).value == (PeerInfo {
            latest_hash: n[i].value.latest_hash,
            last_sent_transactions: n[i].value.last_sent_transactions,
            ..o[i].value
        })
}

impl<D: BlockDownloader> ChainSync<D> {
    /// Whether a major sync is going on, given the fill of the block queue.
    pub open spec fn syncing(&self, unverified: usize, verified: usize) -> bool {
        unverified + verified > 3 || SyncStatus::is_syncing_state(self.state)
    }

    /// Forgets what some peer, picked at random, was told of, so that it is
    /// told of all transactions that wait when they are announced next.
    pub fn forget_announcements(&mut self)
        requires
            old(self).wf(),
        ensures
            final(self).wf(),
            *final(self) == (ChainSync {
                peers: final(self).peers,
                random: final(self).random,
                ..*old(self)
            }),
            requests_kept(old(self).peers.entries@, final(self).peers.entries@),
            old(self).peers.entries@.len() == 0 ==> final(self).peers == old(self).peers,
            old(self).peers.entries@.len() > 0 ==> exists|k: int| #[trigger]
                forgotten_at(old(self).peers.entries@, final(self).peers.entries@, k),
    {
        match self.random.below(self.peers.len()) {
            Some(k) => {
                self.peers.entries[k].value.last_sent_transactions.clear();
                proof {
                    let a = old(self).peers.entries@;
                    let b = self.peers.entries@;
                    assert(same_ids(a, b));
                    lemma_same_ids_distinct(a, b);
                    assert forall|j: int| 0 <= j < b.len() implies (#[trigger] b[j]).value.wf() by {
                        if j != k {
                            assert(b[j] == a[j]);
                            assert(a[j].value.wf());
                        }
                    }
                    assert(forgotten_at(a, b, k as int));
                }
            },
            None => {},
        }
    }

    /// Whether `n` is this synchroniser after the news that blocks were
    /// imported was taken, where the chain client told of a queue with
    /// `unverified` and `verified` blocks and of a chain as `info` tells.
    /// The steps in between are `told` (the best block was spread), `all_told`
    /// (the proposed blocks were sent) and `restarted`; a step that is not
    /// taken leaves the synchroniser as it is.
    pub open spec fn news_taken(
        &self,
        told: Self,
        all_told: Self,
        restarted: Self,
        n: Self,
        unverified: usize,
        verified: usize,
        info: crate::env::ChainInfo,
        invalid: nat,
        enacted: nat,
        sealed: nat,
        proposed: Seq<Seq<u8>>,
        now: Timestamp,
    ) -> bool {
        let is_syncing = self.syncing(unverified, verified);
        &&& if !is_syncing || sealed > 0 || proposed.len() > 0 {
            &&& self.latest_spread(told, info, sealed)
            &&& all_told == (ChainSync { outbox: all_told.outbox, ..told })
            &&& exists|difficulties: Seq<crate::primitives::U256>| #[trigger]
                crate::propagation::blocks_sent(
                    told.outbox@,
                    all_told.outbox@,
                    crate::propagator::speaking(
                        told.peers.entries@,
                        crate::primitives::PAR_PROTOCOL_VERSION_2,
                    ),
                    proposed,
                    difficulties,
                )
        } else {
            told == *self && all_told == told
        }
        &&& if invalid > 0 {
            all_told.restarts(restarted, now)
        } else {
            restarted == all_told
        }
        &&& if !is_syncing && enacted > 0 && restarted.peers.entries@.len() > 0 {
            &&& n == (ChainSync { peers: n.peers, random: n.random, ..restarted })
            &&& exists|k: int| #[trigger]
                forgotten_at(restarted.peers.entries@, n.peers.entries@, k)
        } else {
            n == restarted
        }
    }

    /// Takes the news that blocks were imported; of the blocks that were
    /// imported and of those that were retracted nothing is made.
    ///
    /// Unless a major sync is going on, or where blocks were sealed or
    /// proposed here, the news of the best block is spread.  Where blocks
    /// turned out bad, the sync starts over: this happens after the news is
    /// spread, which asks no peer for anything, so that every request that
    /// is in flight afterwards was made after the start, but for requests
    /// for old blocks and those for the header of the fork block.  Where no
    /// major sync is going on and blocks were enacted, some peer is made to
    /// be told of all waiting transactions next time.
    pub fn chain_new_blocks<I: SyncIo>(
        &mut self,
        io: &mut I,
        imported: &Vec<H256>,
        invalid: &Vec<H256>,
        enacted: &Vec<H256>,
        retracted: &Vec<H256>,
        sealed: &Vec<H256>,
        proposed: &Vec<Vec<u8>>,
        now: Timestamp,
    )
        requires
            old(self).wf(),
        ensures
            final(self).wf(),
            old(self).outbox@.is_prefix_of(final(self).outbox@),
            same_ids(old(self).peers.entries@, final(self).peers.entries@),
            invalid@.len() == 0 ==> no_requests(
                final(self).outbox@,
                old(self).outbox@.len() as int,
                final(self).outbox@.len() as int,
            ) && requests_kept(old(self).peers.entries@, final(self).peers.entries@)
                && final(self).state == old(self).state,
            invalid@.len() > 0 ==> exists|k: int|
                old(self).outbox@.len() <= k <= final(self).outbox@.len() && no_requests(
                    final(self).outbox@,
                    old(self).outbox@.len() as int,
                    k,
                ) && #[trigger] renewed(
                    old(self).peers.entries@,
                    final(self).peers.entries@,
                    final(self).outbox@,
                    k,
                ),
            exists|
                told: Self,
                all_told: Self,
                restarted: Self,
                unverified: usize,
                verified: usize,
                info: crate::env::ChainInfo,
            | #[trigger]
                old(self).news_taken(
                    told,
                    all_told,
                    restarted,
                    *final(self),
                    unverified,
                    verified,
                    info,
                    invalid@.len() as nat,
                    enacted@.len() as nat,
                    sealed@.len() as nat,
                    crate::packets::raw_items(proposed@),
                    now,
                ),
    {
        let queue_info = io.queue_info();
        let ghost mut told = *self;
        let ghost mut info: crate::env::ChainInfo = arbitrary();
        let is_syncing = self.is_syncing_now(queue_info.unverified_queue_size,
            queue_info.verified_queue_size);
        proof {
            crate::propagation::lemma_spread_refl(*self, NEW_BLOCK_PACKET, NEW_BLOCK_HASHES_PACKET);
        }
        if !is_syncing || sealed.len() > 0 || proposed.len() > 0 {
            self.propagate_latest_blocks(io, sealed);
            let ghost g0 = *self;
            proof {
                told = g0;
                info = choose|info: crate::env::ChainInfo|
                    old(self).latest_spread(g0, info, sealed@.len() as nat);
            }
            self.propagate_proposed_blocks(io, proposed);
            proof {
                lemma_spread_widen(g0, *self, NEW_BLOCK_PACKET, NEW_BLOCK_HASHES_PACKET);
                lemma_spread_trans(
                    *old(self),
                    g0,
                    *self,
                    NEW_BLOCK_PACKET,
                    NEW_BLOCK_HASHES_PACKET,
                );
            }
        }
        let ghost g1 = *self;
        proof {
            lemma_spread_asks_nothing(*old(self), g1, NEW_BLOCK_PACKET, NEW_BLOCK_HASHES_PACKET);
        }
        if invalid.len() > 0 {
            self.restart(io, now);
        }
        let ghost g2 = *self;
        proof {
            lemma_prefix_trans(old(self).outbox@, g1.outbox@, g2.outbox@);
            let o = old(self).peers.entries@;
            let m = g1.peers.entries@;
            let n = g2.peers.entries@;
            let k = g1.outbox@.len() as int;
            if invalid@.len() > 0 {
                assert forall|i: int| 0 <= i < o.len() implies (#[trigger] o[i]).id == (
                #[trigger] n[i]).id by {
                    assert(o[i].id == m[i].id);
                    assert(m[i].id == n[i].id);
                }
                assert forall|i: int| 0 <= i < o.len() && live((#[trigger] n[i]).value)
                    implies crate::action::requested(
                    g2.outbox@,
                    k,
                    n[i].id,
                ) || o[i].value.block_set == Some(crate::peer::BlockSet::OldBlocks)
                    || o[i].value.confirmation == crate::peer::ForkConfirmation::Unconfirmed by {
                    assert(m[i].value == (PeerInfo {
                        latest_hash: m[i].value.latest_hash,
                        ..o[i].value
                    }));
                }
                assert(renewed(o, n, g2.outbox@, k));
                assert forall|j: int|
                    0 <= j && old(self).outbox@.len() <= j < k && j < g2.outbox@.len() implies !(
                #[trigger] g2.outbox@[j]).is_request() by {
                    assert(g1.outbox@ =~= g2.outbox@.subrange(0, k));
                    assert(g2.outbox@.subrange(0, k)[j] == g2.outbox@[j]);
                    assert(!g1.outbox@[j].is_request());
                }
            }
        }
        if !is_syncing && enacted.len() > 0 && !self.peers.is_empty() {
            self.forget_announcements();
        }
        proof {
            let o = old(self).peers.entries@;
            let m = g2.peers.entries@;
            let n = self.peers.entries@;
            let k = g1.outbox@.len() as int;
            assert forall|i: int| 0 <= i < o.len() implies (#[trigger] o[i]).id == (
            #[trigger] n[i]).id by {
                assert(o[i].id == m[i].id);
                assert(m[i].id == n[i].id);
            }
            if invalid@.len() > 0 {
                assert forall|i: int| 0 <= i < o.len() && live((#[trigger] n[i]).value)
                    implies crate::action::requested(
                    self.outbox@,
                    k,
                    n[i].id,
                ) || o[i].value.block_set == Some(crate::peer::BlockSet::OldBlocks)
                    || o[i].value.confirmation == crate::peer::ForkConfirmation::Unconfirmed by {
                    assert(live(m[i].value));
                    assert(m[i].id == n[i].id);
                }
                assert(renewed(o, n, self.outbox@, k));
            } else {
                assert forall|i: int| 0 <= i < o.len() implies (#[trigger] n[i]).value
                    == (PeerInfo {
                    latest_hash: n[i].value.latest_hash,
                    last_sent_transactions: n[i].value.last_sent_transactions,
                    ..o[i].value
                }) by {
                    assert(m[i].value == (PeerInfo {
                        latest_hash: m[i].value.latest_hash,
                        ..o[i].value
                    }));
                }
            }
        }
        proof {
            assert(old(self).news_taken(
                told,
                g1,
                g2,
                *self,
                queue_info.unverified_queue_size,
                queue_info.verified_queue_size,
                info,
                invalid@.len() as nat,
                enacted@.len() as nat,
                sealed@.len() as nat,
                crate::packets::raw_items(proposed@),
                now,
            ));
        }
    }

    /// Whether a major sync is going on, given the fill of the block queue.
    pub fn is_syncing_now(&self, unverified: usize, verified: usize) -> (r: bool)
        ensures
            r == self.syncing(unverified, verified),
    {
        let is_syncing_state = match self.state {
            SyncState::Idle | SyncState::NewBlocks => false,
            _ => true,
        };
        let waiting: u128 = unverified as u128 + verified as u128;
        waiting > 3 || is_syncing_state
    }
}

} // verus!
