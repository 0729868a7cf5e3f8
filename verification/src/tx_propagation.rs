//! Announcing the transactions that wait to the peers.

use vstd::prelude::*;
use crate::action::Action;
use crate::chain_sync::{lemma_prefix_trans, ChainSync};
use crate::client_id::accepts_service_transaction;
use crate::env::{BlockDownloader, PendingTransaction, SyncIo};
use crate::hash_list::HashList;
use crate::peer::PeerInfo;
use crate::peer_map::{has_id, lemma_same_ids_distinct, same_ids, Entry};
use crate::primitives::{H256, PeerId};
use crate::primitives::{MAX_PEERS_PROPAGATION, MIN_PEERS_PROPAGATION, TRANSACTIONS_PACKET};
use crate::propagation::only_sends;
use crate::transactions::{among, announce_to, covers, hashes_of, is_lucky};

verus! {

/// Whether the records are the same but for what the peers were told of.
pub open spec fn told_more(o: Seq<Entry<PeerInfo>>, n: Seq<Entry<PeerInfo>>) -> bool {
    &&& same_ids(o, n)
    &&& forall|i: int|
        0 <= i < o.len() ==> (#[trigger] n[i]).value == (PeerInfo {
            last_sent_transactions: n[i].value.last_sent_transactions,
            ..o[i].value
        })
}

/// Whether `n` is `o` after transactions were announced: transaction
/// packets were queued, what peers were told of was noted, with the
/// statistics; random choices may have been made; all else is as it was.
pub open spec fn told<D: BlockDownloader>(o: ChainSync<D>, n: ChainSync<D>) -> bool {
    &&& n.wf()
    &&& o.outbox@.is_prefix_of(n.outbox@)
    &&& only_sends(n.outbox@, o.outbox@.len() as int, TRANSACTIONS_PACKET, TRANSACTIONS_PACKET)
    &&& told_more(o.peers.entries@, n.peers.entries@)
    &&& n == (ChainSync {
        peers: n.peers,
        outbox: n.outbox,
        transactions_stats: n.transactions_stats,
        random: n.random,
        ..o
    })
}

pub proof fn lemma_told_trans<D: BlockDownloader>(x: ChainSync<D>, y: ChainSync<D>, z: ChainSync<D>)
    requires
        told(x, y),
        told(y, z),
    ensures
        told(x, z),
{
    lemma_prefix_trans(x.outbox@, y.outbox@, z.outbox@);
    assert forall|k: int| 0 <= k && x.outbox@.len() <= k < z.outbox@.len() implies (
    #[trigger] z.outbox@[k]).sends_either(TRANSACTIONS_PACKET, TRANSACTIONS_PACKET) by {
        if k < y.outbox@.len() {
            assert(y.outbox@ =~= z.outbox@.subrange(0, y.outbox@.len() as int));
            assert(z.outbox@.subrange(0, y.outbox@.len() as int)[k] == z.outbox@[k]);
            assert(y.outbox@[k] == z.outbox@[k]);
        }
    }
    let o = x.peers.entries@;
    let m = y.peers.entries@;
    let n = z.peers.entries@;
    assert forall|i: int| 0 <= i < o.len() implies (#[trigger] n[i]).value == (PeerInfo {
        last_sent_transactions: n[i].value.last_sent_transactions,
        ..o[i].value
    }) by {
        assert(m[i].value == (PeerInfo {
            last_sent_transactions: m[i].value.last_sent_transactions,
            ..o[i].value
        }));
    }
    assert forall|i: int| 0 <= i < o.len() implies (#[trigger] o[i]).id == (#[trigger] n[i]).id by {
        assert(o[i].id == m[i].id);
        assert(m[i].id == n[i].id);
    }
}

/// What holds of a peer's record after transactions were announced that
/// one packet holds: a peer that had been told of nothing has been told of
/// all of them or of nothing still, and of all of them where it was among
/// those picked.
pub open spec fn entry_told(
    o: PeerInfo,
    n: PeerInfo,
    picked: bool,
    txs: Seq<PendingTransaction>,
) -> bool {
    o.last_sent_transactions.items@.len() == 0 && txs.len() > 0 && fits_one_packet(txs) ==> (
    covers(n.last_sent_transactions, txs) && n.last_sent_transactions.items@.len() > 0) || (n
        == o && !picked)
}

/// Whether one packet holds all the transactions.
pub open spec fn fits_one_packet(txs: Seq<PendingTransaction>) -> bool {
    !crate::transactions::picked(txs, Seq::empty()).full
}

/// Whether `part` are transactions of the one class among `txs`, and all
/// of them.
pub open spec fn is_class(
    part: Seq<PendingTransaction>,
    txs: Seq<PendingTransaction>,
    service: bool,
) -> bool {
    &&& forall|i: int|
        0 <= i < part.len() ==> (#[trigger] part[i]).service == service && among(
            txs,
            part[i].hash,
        )
    &&& forall|k: int|
        0 <= k < txs.len() && (#[trigger] txs[k]).service == service ==> among(part, txs[k].hash)
}

/// Whether every peer has been told of something, and of every one of the
/// transactions.
pub open spec fn fully_announced(s: Seq<Entry<PeerInfo>>, txs: Seq<PendingTransaction>) -> bool {
    forall|i: int|
        0 <= i < s.len() ==> (#[trigger] s[i]).value.last_sent_transactions.items@.len() > 0
            && covers(s[i].value.last_sent_transactions, txs)
}

/// Whether no peer has been told of anything.
pub open spec fn none_told(s: Seq<Entry<PeerInfo>>) -> bool {
    forall|i: int|
        0 <= i < s.len() ==> (#[trigger] s[i]).value.last_sent_transactions.items@.len() == 0
}

/// Whether none of the transactions pays nothing.
pub open spec fn all_paid(txs: Seq<PendingTransaction>) -> bool {
    forall|i: int| 0 <= i < txs.len() ==> !(#[trigger] txs[i]).service
}

impl<D: BlockDownloader> ChainSync<D> {
    /// Picks the peers that transactions are announced to.  With fewer
    /// peers than the least that news goes to, every peer is picked; else
    /// each peer is picked by a draw, and no more than the most that news
    /// goes to.  Transactions that pay nothing go only to clients that take
    /// them.
    pub fn select_peers_for_transactions<I: SyncIo>(&mut self, io: &I, service: bool) -> (r: Vec<
        PeerId,
    >)
        requires
            old(self).wf(),
        ensures
            *final(self) == (ChainSync { random: final(self).random, ..*old(self) }),
            r@.len() <= MAX_PEERS_PROPAGATION,
            forall|k: int| 0 <= k < r@.len() ==> has_id(old(self).peers.entries@, #[trigger] r@[k]),
            old(self).peers.entries@.len() < MIN_PEERS_PROPAGATION && !service ==> forall|i: int|
                0 <= i < old(self).peers.entries@.len() ==> r@.contains(
                    (#[trigger] old(self).peers.entries@[i]).id,
                ),
    {
        let n = self.peers.len();
        let small = n < MIN_PEERS_PROPAGATION;
        let mut r: Vec<PeerId> = Vec::new();
        let mut i: usize = 0;
        while i < n && r.len() < MAX_PEERS_PROPAGATION
            invariant
                i <= n,
                n == self.peers.entries@.len(),
                small == (n < MIN_PEERS_PROPAGATION),
                *self == (ChainSync { random: self.random, ..*old(self) }),
                r@.len() <= MAX_PEERS_PROPAGATION,
                r@.len() <= i,
                forall|k: int|
                    0 <= k < r@.len() ==> has_id(old(self).peers.entries@, #[trigger] r@[k]),
                small && !service ==> forall|k: int|
                    0 <= k < i ==> r@.contains((#[trigger] old(self).peers.entries@[k]).id),
            decreases n - i,
        {
            let id = self.peers.entries[i].id;
            let wanted = if service {
                let client = io.peer_client(id);
                accepts_service_transaction(client.as_slice())
            } else {
                true
            };
            if wanted && (small || is_lucky(self.random.next_u32(), n)) {
                let ghost before = r@;
                r.push(id);
                proof {
                    assert(old(self).peers.entries@[i as int].id == id);
                    assert(r@[before.len() as int] == id);
                    assert forall|k: int| 0 <= k < i && before.contains(
                        (#[trigger] old(self).peers.entries@[k]).id,
                    ) implies r@.contains(old(self).peers.entries@[k].id) by {
                        let j = choose|j: int|
                            0 <= j < before.len() && before[j] == old(self).peers.entries@[k].id;
                        assert(r@[j] == before[j]);
                    }
                }
            }
            i += 1;
        }
        r
    }

    /// Whether `n` is this synchroniser after the given peer was told of
    /// the transactions picked for it, see `picked`: where there are any,
    /// its record holds the transactions that wait and that it has been
    /// told of, now or before, and the packet that holds those picked, and
    /// no others, is queued for it last.  The statistics of the
    /// announcements are brought up to date.
    pub open spec fn one_told(&self, n: Self, peer_id: PeerId, txs: Seq<PendingTransaction>)
        -> bool {
        let at = crate::peer_map::position(self.peers.entries@, peer_id);
        let told_before = self.peers.entries@[at].value.last_sent_transactions;
        let p = crate::transactions::picked(txs, told_before.items@);
        if !self.peers.has(peer_id) || p.hashes.len() == 0 {
            n == (ChainSync { peers: n.peers, ..*self }) && n.peers.entries@
                == self.peers.entries@
        } else {
            &&& n == (ChainSync {
                peers: n.peers,
                outbox: n.outbox,
                transactions_stats: n.transactions_stats,
                ..*self
            })
            &&& told_more(self.peers.entries@, n.peers.entries@)
            &&& forall|k: int|
                0 <= k < self.peers.entries@.len() && k != at ==> (#[trigger] n.peers.entries@[k])
                    == self.peers.entries@[k]
            &&& forall|h: H256|
                n.peers.entries@[at].value.last_sent_transactions.has(h) == ((told_before.has(h)
                    && among(txs, h)) || p.hashes.contains(h))
            &&& n.outbox@.len() == self.outbox@.len() + 1
            &&& self.outbox@.is_prefix_of(n.outbox@)
            &&& n.outbox@.last().sends(
                peer_id,
                TRANSACTIONS_PACKET,
                crate::codec::encoded_list(p.raws),
            )
        }
    }

    /// Whether `n` is this synchroniser after each of the given peers in
    /// turn was told of the transactions picked for it: see `one_told`.
    pub open spec fn each_told(&self, n: Self, peers: Seq<PeerId>, txs: Seq<PendingTransaction>)
        -> bool
        decreases peers.len(),
    {
        if peers.len() == 0 {
            n == *self
        } else {
            exists|mid: Self|
                {
                    &&& self.each_told(mid, peers.drop_last(), txs)
                    &&& #[trigger] mid.one_told(n, peers.last(), txs)
                }
        }
    }

    /// Whether `n` is this synchroniser after the given transactions were
    /// announced to the given peers: the statistics forget the transactions
    /// that wait no longer (`first`), and then see `each_told`.
    pub open spec fn class_told(
        &self,
        first: Self,
        n: Self,
        peers: Seq<PeerId>,
        txs: Seq<PendingTransaction>,
    ) -> bool {
        &&& first == (ChainSync { transactions_stats: first.transactions_stats, ..*self })
        &&& first.each_told(n, peers, txs)
    }

    /// Announces transactions to the given peers: see `class_told` and
    /// `announce_to` for what each of them is told.  The answer is the
    /// peers that were told of something.
    pub fn propagate_transactions_to_peers<I: SyncIo>(
        &mut self,
        io: &mut I,
        peers: &Vec<PeerId>,
        txs: &Vec<PendingTransaction>,
    ) -> (affected: Vec<PeerId>)
        requires
            old(self).wf(),
        ensures
            told(*old(self), *final(self)),
            final(self).random == old(self).random,
            final(self).outbox@.len() == old(self).outbox@.len() + affected@.len(),
            affected@.len() <= peers@.len(),
            fully_announced(old(self).peers.entries@, txs@) ==> affected@.len() == 0
                && final(self).peers.entries@ == old(self).peers.entries@,
            forall|i: int|
                0 <= i < old(self).peers.entries@.len() ==> entry_told(
                    (#[trigger] old(self).peers.entries@[i]).value,
                    final(self).peers.entries@[i].value,
                    peers@.contains(old(self).peers.entries@[i].id),
                    txs@,
                ),
            exists|first: Self| #[trigger]
                old(self).class_told(first, *final(self), peers@, txs@),
    {
        let all = hashes_of(txs);
        self.transactions_stats.retain(&all);
        let ghost first = *self;
        let block_number = io.chain_info().best_block_number;
        let mut affected: Vec<PeerId> = Vec::new();
        proof {
            assert(peers@.subrange(0, 0) =~= Seq::<PeerId>::empty());
        }
        let mut p: usize = 0;
        while p < peers.len()
            invariant
                p <= peers@.len(),
                old(self).wf(),
                all.wf(),
                forall|h: H256| all.has(h) == among(txs@, h),
                txs@.len() > 0 ==> all.items@.len() > 0,
                told(*old(self), *self),
                self.random == old(self).random,
                self.outbox@.len() == old(self).outbox@.len() + affected@.len(),
                affected@.len() <= p,
                first == (ChainSync { transactions_stats: first.transactions_stats, ..*old(self) }),
                first.each_told(*self, peers@.subrange(0, p as int), txs@),
                fully_announced(old(self).peers.entries@, txs@) ==> affected@.len() == 0
                    && self.peers.entries@ == old(self).peers.entries@,
                forall|i: int|
                    0 <= i < old(self).peers.entries@.len() ==> entry_told(
                        (#[trigger] old(self).peers.entries@[i]).value,
                        self.peers.entries@[i].value,
                        peers@.subrange(0, p as int).contains(old(self).peers.entries@[i].id),
                        txs@,
                    ),
            decreases peers@.len() - p,
        {
            let peer_id = peers[p];
            let ghost before = *self;
            let ghost done = peers@.subrange(0, p as int);
            let ghost next = peers@.subrange(0, p + 1);
            proof {
                assert(next =~= done.push(peer_id));
                assert(next.drop_last() =~= done);
                assert(next.last() == peer_id);
                assert forall|id: PeerId| next.contains(id) == (done.contains(id) || id
                    == peer_id) by {
                    if done.contains(id) {
                        let j = choose|j: int| 0 <= j < done.len() && done[j] == id;
                        assert(next[j] == id);
                    }
                    if id == peer_id {
                        assert(next[p as int] == id);
                    }
                }
            }
            match self.peers.index_of(peer_id) {
                Some(i) => {
                    let announcement = announce_to(&mut self.peers.entries[i].value, txs, &all);
                    let ghost noted = self.peers.entries@[i as int].value.last_sent_transactions;
                    proof {
                        let was = before.peers.entries@[i as int].value.last_sent_transactions;
                        if announcement is Some {
                            assert forall|x: H256|
                                noted.has(x) == ((was.has(x) && among(txs@, x))
                                    || crate::transactions::picked(
                                    txs@,
                                    was.items@,
                                ).hashes.contains(x)) by {}
                        }
                    }
                    proof {
                        let a = before.peers.entries@;
                        let b = self.peers.entries@;
                        assert(same_ids(a, b));
                        lemma_same_ids_distinct(a, b);
                        assert forall|k: int| 0 <= k < b.len()
                            implies (#[trigger] b[k]).value.wf() by {
                            if k != i {
                                assert(b[k] == a[k]);
                                assert(a[k].value.wf());
                            }
                        }
                        assert(told_more(a, b));
                        crate::peer_map::lemma_position_unique(a, i as int);
                        crate::peer_map::lemma_same_ids_distinct(
                            old(self).peers.entries@,
                            a,
                        );
                        let olds = old(self).peers.entries@;
                        assert forall|k: int| 0 <= k < olds.len() implies entry_told(
                            (#[trigger] olds[k]).value,
                            b[k].value,
                            next.contains(olds[k].id),
                            txs@,
                        ) by {
                            assert(entry_told(
                                olds[k].value,
                                a[k].value,
                                done.contains(olds[k].id),
                                txs@,
                            ));
                            assert(olds[k].id == a[k].id);
                            if k == i {
                                if olds[k].value.last_sent_transactions.items@.len() == 0
                                    && a[k].value.last_sent_transactions.items@.len() == 0 {
                                    assert(a[k].value.last_sent_transactions.items@
                                        =~= Seq::<H256>::empty());
                                }
                                if txs@.len() > 0 && covers(
                                    b[k].value.last_sent_transactions,
                                    txs@,
                                ) {
                                    assert(b[k].value.last_sent_transactions.has(txs@[0].hash));
                                }
                            } else {
                                assert(b[k] == a[k]);
                                if k < i {
                                    assert(a[k].id != a[i as int].id);
                                } else {
                                    assert(a[i as int].id != a[k].id);
                                }
                            }
                        }
                        if fully_announced(olds, txs@) {
                            assert(olds[i as int].value.last_sent_transactions.items@.len() > 0);
                            assert(a =~= olds);
                            assert(announcement is None);
                            assert(b =~= a);
                        }
                    }
                    let ghost at = crate::peer_map::position(before.peers.entries@, peer_id);
                    let ghost chosen = crate::transactions::picked(
                        txs@,
                        before.peers.entries@[i as int].value.last_sent_transactions.items@,
                    );
                    proof {
                        assert(at == i);
                        assert(before.peers.has(peer_id));
                    }
                    match announcement {
                        Some(a) => {
                            let ghost payload = a.packet@;
                            let ghost at_stats = *self;
                            let mut h: usize = 0;
                            while h < a.hashes.len()
                                invariant
                                    h <= a.hashes@.len(),
                                    *self == (ChainSync {
                                        transactions_stats: self.transactions_stats,
                                        ..at_stats
                                    }),
                                decreases a.hashes@.len() - h,
                            {
                                self.transactions_stats.propagated(
                                    &a.hashes[h],
                                    peer_id,
                                    block_number,
                                );
                                h += 1;
                            }
                            let ghost mid = *self;
                            self.outbox.push(
                                Action::Send {
                                    peer: peer_id,
                                    packet_id: TRANSACTIONS_PACKET,
                                    data: a.packet,
                                },
                            );
                            affected.push(peer_id);
                            proof {
                                assert(told(before, *self)) by {
                                    assert(self.outbox@.last().sends_either(
                                        TRANSACTIONS_PACKET,
                                        TRANSACTIONS_PACKET,
                                    ));
                                }
                                lemma_told_trans(*old(self), before, *self);
                                assert(payload == crate::codec::encoded_list(chosen.raws));
                                assert(self.outbox@.last().sends(
                                    peer_id,
                                    TRANSACTIONS_PACKET,
                                    crate::codec::encoded_list(chosen.raws),
                                ));
                                assert(before.outbox@.is_prefix_of(self.outbox@));
                                let o = before.peers.entries@;
                                let n = self.peers.entries@;
                                assert(chosen.hashes.len() > 0);
                                assert(told_more(o, n));
                                assert forall|k: int| 0 <= k < o.len() && k != at implies (
                                #[trigger] n[k]) == o[k] by {}
                                assert(n[at].value.last_sent_transactions == noted);
                                assert(before.one_told(*self, peer_id, txs@));
                            }
                        },
                        None => {
                            proof {
                                assert(self.peers.entries@ =~= before.peers.entries@);
                                assert(told(before, *self));
                                lemma_told_trans(*old(self), before, *self);
                                assert(chosen.hashes.len() == 0);
                                assert(before.one_told(*self, peer_id, txs@));
                            }
                        },
                    }
                },
                None => {
                    proof {
                        assert(!before.peers.has(peer_id));
                        assert(before.one_told(*self, peer_id, txs@));
                        let olds = old(self).peers.entries@;
                        assert forall|k: int| 0 <= k < olds.len() implies entry_told(
                            (#[trigger] olds[k]).value,
                            self.peers.entries@[k].value,
                            next.contains(olds[k].id),
                            txs@,
                        ) by {
                            assert(entry_told(
                                olds[k].value,
                                self.peers.entries@[k].value,
                                done.contains(olds[k].id),
                                txs@,
                            ));
                            assert(self.peers.entries@[k].id == olds[k].id);
                        }
                    }
                },
            }
            proof {
                assert(before.one_told(*self, peer_id, txs@));
            }
            p += 1;
        }
        proof {
            assert(peers@.subrange(0, peers@.len() as int) =~= peers@);
            assert(old(self).class_told(first, *self, peers@, txs@));
        }
        affected
    }
}

/// The transactions of one class.
pub fn transactions_of_class(txs: &Vec<PendingTransaction>, service: bool) -> (r: Vec<
    PendingTransaction,
>)
    ensures
        r@.len() <= txs@.len(),
        forall|i: int|
            0 <= i < r@.len() ==> (#[trigger] r@[i]).service == service && among(txs@, r@[i].hash),
        forall|k: int|
            0 <= k < txs@.len() && (#[trigger] txs@[k]).service == service ==> among(
                r@,
                txs@[k].hash,
            ),
        r@.len() == 0 <==> forall|k: int|
            0 <= k < txs@.len() ==> (#[trigger] txs@[k]).service != service,
        is_class(r@, txs@, service),
        (forall|k: int| 0 <= k < txs@.len() ==> (#[trigger] txs@[k]).service == service)
            ==> r@.len() == txs@.len() && forall|k: int|
            0 <= k < txs@.len() ==> (#[trigger] r@[k]).hash == txs@[k].hash && r@[k].raw@
                == txs@[k].raw@,
{
    let mut r: Vec<PendingTransaction> = Vec::new();
    let mut i: usize = 0;
    while i < txs.len()
        invariant
            i <= txs@.len(),
            r@.len() <= i,
            (forall|k: int| 0 <= k < i ==> (#[trigger] txs@[k]).service == service) ==> r@.len()
                == i && forall|k: int|
                0 <= k < i ==> (#[trigger] r@[k]).hash == txs@[k].hash && r@[k].raw@
                    == txs@[k].raw@,
            forall|j: int|
                0 <= j < r@.len() ==> (#[trigger] r@[j]).service == service && among(
                    txs@,
                    r@[j].hash,
                ),
            forall|k: int|
                0 <= k < i && (#[trigger] txs@[k]).service == service ==> among(r@, txs@[k].hash),
            r@.len() == 0 <==> forall|k: int|
                0 <= k < i ==> (#[trigger] txs@[k]).service != service,
        decreases txs@.len() - i,
    {
        if txs[i].service == service {
            let ghost before = r@;
            r.push(
                PendingTransaction {
                    hash: txs[i].hash,
                    service: txs[i].service,
                    raw: vstd::slice::slice_to_vec(txs[i].raw.as_slice()),
                },
            );
            proof {
                assert(r@[before.len() as int].hash == txs@[i as int].hash);
                assert(among(txs@, txs@[i as int].hash));
                assert forall|k: int|
                    0 <= k < i + 1 && (#[trigger] txs@[k]).service == service implies among(
                    r@,
                    txs@[k].hash,
                ) by {
                    if k < i {
                        let j = choose|j: int|
                            0 <= j < before.len() && (#[trigger] before[j]).hash == txs@[k].hash;
                        assert(r@[j].hash == txs@[k].hash);
                    }
                }
                assert(txs@[i as int].service == service);
            }
        }
        i += 1;
    }
    r
}

/// A peer that has been told of all transactions has been told of those of
/// one class.
pub proof fn lemma_covers_part(
    sent: HashList,
    txs: Seq<PendingTransaction>,
    part: Seq<PendingTransaction>,
)
    requires
        covers(sent, txs),
        forall|i: int| 0 <= i < part.len() ==> among(txs, (#[trigger] part[i]).hash),
    ensures
        covers(sent, part),
{
    assert forall|i: int| 0 <= i < part.len() implies sent.has((#[trigger] part[i]).hash) by {
        let k = choose|k: int| 0 <= k < txs.len() && (#[trigger] txs[k]).hash == part[i].hash;
        assert(sent.has(txs[k].hash));
    }
}

/// A peer that has been told of the transactions of the one class, where
/// there are none of the other, has been told of all.
pub proof fn lemma_covers_whole(
    sent: HashList,
    txs: Seq<PendingTransaction>,
    part: Seq<PendingTransaction>,
    service: bool,
)
    requires
        covers(sent, part),
        forall|k: int| 0 <= k < txs.len() ==> (#[trigger] txs[k]).service == service,
        forall|k: int|
            0 <= k < txs.len() && (#[trigger] txs[k]).service == service ==> among(
                part,
                txs[k].hash,
            ),
    ensures
        covers(sent, txs),
{
    assert forall|k: int| 0 <= k < txs.len() implies sent.has((#[trigger] txs[k]).hash) by {
        assert(among(part, txs[k].hash));
        let j = choose|j: int| 0 <= j < part.len() && (#[trigger] part[j]).hash == txs[k].hash;
        assert(sent.has(part[j].hash));
    }
}

/// Adds hashes to a set.
pub fn extend_hashes(list: &mut HashList, hashes: &Vec<H256>)
    requires
        old(list).wf(),
    ensures
        final(list).wf(),
        forall|h: H256| final(list).has(h) == (old(list).has(h) || hashes@.contains(h)),
{
    let mut k: usize = 0;
    while k < hashes.len()
        invariant
            k <= hashes@.len(),
            list.wf(),
            forall|h: H256|
                list.has(h) == (old(list).has(h) || hashes@.subrange(0, k as int).contains(h)),
        decreases hashes@.len() - k,
    {
        let ghost seen = hashes@.subrange(0, k as int);
        let ghost next = hashes@.subrange(0, k + 1);
        let _ = list.insert(hashes[k]);
        proof {
            assert(next =~= seen.push(hashes@[k as int]));
            assert forall|x: H256| next.contains(x) == (seen.contains(x) || x
                == hashes@[k as int]) by {
                if seen.contains(x) {
                    let j = choose|j: int| 0 <= j < seen.len() && seen[j] == x;
                    assert(next[j] == x);
                }
                if x == hashes@[k as int] {
                    assert(next[k as int] == x);
                }
            }
        }
        k += 1;
    }
    proof {
        assert(hashes@.subrange(0, hashes@.len() as int) =~= hashes@);
    }
}

impl<D: BlockDownloader> ChainSync<D> {
    /// Whether `n` is this synchroniser after the given transactions, which
    /// wait to be mined, were announced, with `r` packets.
    pub open spec fn announces_ready(&self, n: Self, txs: Seq<PendingTransaction>, r: usize)
        -> bool {
        &&& told(*self, n)
        &&& n.outbox@.len() == self.outbox@.len() + r
        &&& fully_announced(self.peers.entries@, txs) ==> r == 0 && n.peers.entries@
            == self.peers.entries@
        &&& self.peers.entries@.len() == 0 || txs.len() == 0 ==> r == 0 && n == *self
        &&& txs.len() > 0 && self.peers.entries@.len() < MIN_PEERS_PROPAGATION && none_told(
            self.peers.entries@,
        ) && all_paid(txs) && fits_one_packet(txs) ==> fully_announced(n.peers.entries@, txs)
        &&& self.peers.entries@.len() > 0 && txs.len() > 0 ==> exists|
            between: Self,
            paid: Seq<PendingTransaction>,
            free: Seq<PendingTransaction>,
            paid_peers: Seq<PeerId>,
            free_peers: Seq<PeerId>,
        | #[trigger] self.classes_told(between, n, txs, paid, free, paid_peers, free_peers)
    }

    /// Whether `n` is this synchroniser after the transactions `txs` were
    /// announced class by class: those that pay, `paid`, to the peers
    /// `paid_peers` (`between`), then those that pay nothing, `free`, to
    /// the peers `free_peers`.  Each packet holds transactions of one class
    /// only: see `class_told`.  For a class without transactions nothing is
    /// done; the peers are picked at random.
    pub open spec fn classes_told(
        &self,
        between: Self,
        n: Self,
        txs: Seq<PendingTransaction>,
        paid: Seq<PendingTransaction>,
        free: Seq<PendingTransaction>,
        paid_peers: Seq<PeerId>,
        free_peers: Seq<PeerId>,
    ) -> bool {
        &&& is_class(paid, txs, false)
        &&& is_class(free, txs, true)
        &&& if paid.len() > 0 {
            exists|drawn: Self, first: Self|
                drawn == (ChainSync { random: drawn.random, ..*self }) && #[trigger]
                drawn.class_told(first, between, paid_peers, paid)
        } else {
            between == *self
        }
        &&& if free.len() > 0 {
            exists|drawn: Self, first: Self|
                drawn == (ChainSync { random: drawn.random, ..between }) && #[trigger]
                drawn.class_told(first, n, free_peers, free)
        } else {
            n == between
        }
    }

    /// Announces the given transactions, which wait, to peers: those that
    /// pay to peers picked among all, those that pay nothing to peers
    /// picked among the clients that take such, in a packet of their own.
    /// The answer is the number of packets queued.
    ///
    /// Where every peer has been told of all the transactions, nothing is
    /// queued.  Where there are fewer peers than the least that news goes
    /// to, none of them has been told of anything, and all transactions
    /// pay, every peer has been told of all of them afterwards.
    pub fn propagate_ready_transactions<I: SyncIo>(
        &mut self,
        io: &mut I,
        txs: &Vec<PendingTransaction>,
    ) -> (r: usize)
        requires
            old(self).wf(),
        ensures
            old(self).announces_ready(*final(self), txs@, r),
    {
        if self.peers.is_empty() || txs.len() == 0 {
            return 0;
        }
        let paid = transactions_of_class(txs, false);
        let free = transactions_of_class(txs, true);
        let mut sent: usize = 0;
        let ghost g0 = *self;
        let ghost mut paid_peers = Seq::<PeerId>::empty();
        let ghost mut free_peers = Seq::<PeerId>::empty();
        if paid.len() > 0 {
            let peers = self.select_peers_for_transactions(io, false);
            let ghost g1 = *self;
            let affected = self.propagate_transactions_to_peers(io, &peers, &paid);
            sent = affected.len();
            proof {
                paid_peers = peers@;
                let first = choose|first: Self| #[trigger]
                    g1.class_told(first, *self, peers@, paid@);
                assert(g1.class_told(first, *self, peers@, paid@));
                if all_paid(txs@) && fits_one_packet(txs@) {
                    assert forall|k: int| 0 <= k < txs@.len() implies (
                    #[trigger] txs@[k]).service == false by {}
                    crate::transactions::lemma_picked_alike(paid@, txs@, Seq::empty());
                    assert(fits_one_packet(paid@));
                }
                assert(told(g0, g1));
                lemma_told_trans(g0, g1, *self);
                if fully_announced(g0.peers.entries@, txs@) {
                    assert forall|i: int| 0 <= i < g0.peers.entries@.len() implies (
                    #[trigger] g0.peers.entries@[i]).value.last_sent_transactions.items@.len() > 0
                        && covers(g0.peers.entries@[i].value.last_sent_transactions, paid@) by {
                        lemma_covers_part(
                            g0.peers.entries@[i].value.last_sent_transactions,
                            txs@,
                            paid@,
                        );
                    }
                }
                if txs@.len() > 0 && g0.peers.entries@.len() < MIN_PEERS_PROPAGATION && none_told(
                    g0.peers.entries@,
                ) && all_paid(txs@) && fits_one_packet(txs@) {
                    assert forall|i: int| 0 <= i < self.peers.entries@.len() implies (
                    #[trigger] self.peers.entries@[i]).value.last_sent_transactions.items@.len() > 0
                        && covers(self.peers.entries@[i].value.last_sent_transactions, txs@) by {
                        assert(crate::tx_propagation::entry_told(
                            g0.peers.entries@[i].value,
                            self.peers.entries@[i].value,
                            peers@.contains(g0.peers.entries@[i].id),
                            paid@,
                        ));
                        lemma_covers_whole(
                            self.peers.entries@[i].value.last_sent_transactions,
                            txs@,
                            paid@,
                            false,
                        );
                    }
                }
            }
        }
        let ghost g2 = *self;
        proof {
            if paid@.len() == 0 {
                assert(told(g0, g2));
            }
        }
        if free.len() > 0 {
            let peers = self.select_peers_for_transactions(io, true);
            let ghost g3 = *self;
            let affected = self.propagate_transactions_to_peers(io, &peers, &free);
            proof {
                free_peers = peers@;
                let first = choose|first: Self| #[trigger]
                    g3.class_told(first, *self, peers@, free@);
                assert(g3.class_told(first, *self, peers@, free@));
                assert(told(g2, g3));
                lemma_told_trans(g0, g2, g3);
                lemma_told_trans(g0, g3, *self);
                if fully_announced(g0.peers.entries@, txs@) {
                    assert(g2.peers.entries@ == g0.peers.entries@);
                    assert forall|i: int| 0 <= i < g3.peers.entries@.len() implies (
                    #[trigger] g3.peers.entries@[i]).value.last_sent_transactions.items@.len() > 0
                        && covers(g3.peers.entries@[i].value.last_sent_transactions, free@) by {
                        assert(g3.peers.entries@[i] == g0.peers.entries@[i]);
                        lemma_covers_part(
                            g0.peers.entries@[i].value.last_sent_transactions,
                            txs@,
                            free@,
                        );
                    }
                }
            }
            sent = sent + affected.len();
        }
        proof {
            if txs@.len() > 0 && all_paid(txs@) {
                assert(!txs@[0].service);
                assert(paid@.len() > 0);
                assert(free@.len() == 0);
            }
            assert(g0.classes_told(g2, *self, txs@, paid@, free@, paid_peers, free_peers));
        }
        sent
    }

    /// Announces the transactions that wait at the chain client: see
    /// `propagate_ready_transactions`.
    pub fn propagate_new_transactions<I: SyncIo>(&mut self, io: &mut I) -> (r: usize)
        requires
            old(self).wf(),
        ensures
            told(*old(self), *final(self)),
            final(self).outbox@.len() == old(self).outbox@.len() + r,
            old(self).peers.entries@.len() == 0 ==> r == 0 && *final(self) == *old(self),
            old(self).peers.entries@.len() > 0 ==> exists|txs: Seq<PendingTransaction>| #[trigger]
                old(self).announces_ready(*final(self), txs, r),
    {
        if self.peers.is_empty() {
            return 0;
        }
        let txs = io.ready_transactions();
        let r = self.propagate_ready_transactions(io, &txs);
        proof {
            assert(old(self).announces_ready(*self, txs@, r));
        }
        r
    }

    /// Notes that a peer knows of the transactions with the given hashes,
    /// having sent them itself.
    pub fn transactions_received(&mut self, hashes: &Vec<H256>, peer_id: PeerId)
        requires
            old(self).wf(),
        ensures
            final(self).wf(),
            *final(self) == (ChainSync { peers: final(self).peers, ..*old(self) }),
            told_more(old(self).peers.entries@, final(self).peers.entries@),
            !old(self).peers.has(peer_id) ==> final(self).peers.entries@ == old(
                self,
            ).peers.entries@,
            old(self).peers.has(peer_id) ==> forall|h: H256|
                final(self).peer(peer_id).last_sent_transactions.has(h) == (old(self).peer(
                    peer_id,
                ).last_sent_transactions.has(h) || hashes@.contains(h)),
            forall|i: int|
                0 <= i < old(self).peers.entries@.len() && (#[trigger] old(
                    self,
                ).peers.entries@[i]).id != peer_id ==> final(self).peers.entries@[i] == old(
                    self,
                ).peers.entries@[i],
    {
        match self.peers.index_of(peer_id) {
            Some(i) => {
                extend_hashes(&mut self.peers.entries[i].value.last_sent_transactions, hashes);
                proof {
                    let a = old(self).peers.entries@;
                    let b = self.peers.entries@;
                    assert(same_ids(a, b));
                    lemma_same_ids_distinct(a, b);
                    crate::peer_map::lemma_position_unique(a, i as int);
                    crate::peer_map::lemma_position_unique(b, i as int);
                    assert forall|j: int| 0 <= j < b.len() implies (#[trigger] b[j]).value.wf() by {
                        if j != i {
                            assert(b[j] == a[j]);
                            assert(a[j].value.wf());
                        }
                    }
                    assert forall|j: int| 0 <= j < a.len() && (#[trigger] a[j]).id
                        != peer_id implies b[j] == a[j] by {}
                }
            },
            None => {},
        }
    }

    /// The statistics of the announcements of transactions.
    pub fn transactions_stats(&self) -> (r: &crate::stats::TransactionsStats)
        ensures
            *r == self.transactions_stats,
    {
        &self.transactions_stats
    }
}

} // verus!
