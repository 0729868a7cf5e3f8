//! How far each transaction has been announced.

use vstd::prelude::*;
use crate::hash_list::HashList;
use crate::primitives::{BlockNumber, H256, PeerId};

verus! {

/// The announcements of one transaction.
#[derive(Debug)]
pub struct Stats {
    pub hash: H256,
    /// Best block when the transaction was first announced.
    pub first_seen: BlockNumber,
    /// The peers it was announced to, one entry for each announcement.
    pub propagated_to: Vec<PeerId>,
}

/// The announcements of all transactions that still wait.
#[derive(Debug)]
pub struct TransactionsStats {
    pub pending: Vec<Stats>,
}

/// The announcements of one transaction as plain values.
pub struct StatsView {
    pub hash: H256,
    pub first_seen: BlockNumber,
    pub propagated_to: Seq<PeerId>,
}

impl View for Stats {
    type V = StatsView;

    open spec fn view(&self) -> StatsView {
        StatsView {
            hash: self.hash,
            first_seen: self.first_seen,
            propagated_to: self.propagated_to@,
        }
    }
}

impl View for TransactionsStats {
    type V = Seq<StatsView>;

    open spec fn view(&self) -> Seq<StatsView> {
        self.pending@.map_values(|s: Stats| s@)
    }
}

/// Whether some entry is about the given transaction.
pub open spec fn tracks(s: Seq<StatsView>, hash: H256) -> bool {
    exists|i: int| 0 <= i < s.len() && (#[trigger] s[i]).hash == hash
}

/// The entries after one more announcement of a transaction to a peer: the
/// first entry about the transaction has the peer added; where there is
/// none, a new one stands at the end, with the given block as the one at
/// which the transaction was first seen.
pub open spec fn noted(s: Seq<StatsView>, hash: H256, peer: PeerId, block: BlockNumber) -> Seq<
    StatsView,
>
    decreases s.len(),
{
    if s.len() == 0 {
        seq![StatsView { hash, first_seen: block, propagated_to: seq![peer] }]
    } else if s.first().hash == hash {
        s.update(
            0,
            StatsView { propagated_to: s.first().propagated_to.push(peer), ..s.first() },
        )
    } else {
        seq![s.first()] + noted(s.drop_first(), hash, peer, block)
    }
}

/// The entries about the transactions that `keep` holds, in their order.
pub open spec fn retained(s: Seq<StatsView>, keep: Seq<H256>) -> Seq<StatsView>
    decreases s.len(),
{
    if s.len() == 0 {
        Seq::empty()
    } else if keep.contains(s.last().hash) {
        retained(s.drop_last(), keep).push(s.last())
    } else {
        retained(s.drop_last(), keep)
    }
}

/// Where the first entry about a transaction stands at `i`, the note is
/// made there.
pub proof fn lemma_noted_at(s: Seq<StatsView>, i: int, hash: H256, peer: PeerId, block: BlockNumber)
    requires
        0 <= i < s.len(),
        s[i].hash == hash,
        forall|k: int| 0 <= k < i ==> (#[trigger] s[k]).hash != hash,
    ensures
        noted(s, hash, peer, block) == s.update(
            i,
            StatsView { propagated_to: s[i].propagated_to.push(peer), ..s[i] },
        ),
    decreases s.len(),
{
    if i > 0 {
        let rest = s.drop_first();
        assert forall|k: int| 0 <= k < i - 1 implies (#[trigger] rest[k]).hash != hash by {
            assert(s[k + 1].hash != hash);
        }
        lemma_noted_at(rest, i - 1, hash, peer, block);
        assert(s.first().hash != hash);
        assert(seq![s.first()] + rest.update(
            i - 1,
            StatsView { propagated_to: s[i].propagated_to.push(peer), ..s[i] },
        ) =~= s.update(i, StatsView { propagated_to: s[i].propagated_to.push(peer), ..s[i] }));
    }
}

/// Where no entry is about a transaction, the note is made at the end.
pub proof fn lemma_noted_new(s: Seq<StatsView>, hash: H256, peer: PeerId, block: BlockNumber)
    requires
        !tracks(s, hash),
    ensures
        noted(s, hash, peer, block) == s.push(
            StatsView { hash, first_seen: block, propagated_to: seq![peer] },
        ),
    decreases s.len(),
{
    let fresh = StatsView { hash, first_seen: block, propagated_to: seq![peer] };
    if s.len() == 0 {
        assert(seq![fresh] =~= s.push(fresh));
    } else {
        let rest = s.drop_first();
        assert(s[0].hash != hash);
        assert forall|k: int| 0 <= k < rest.len() implies (#[trigger] rest[k]).hash != hash by {
            assert(s[k + 1].hash != hash);
        }
        lemma_noted_new(rest, hash, peer, block);
        assert(seq![s.first()] + rest.push(fresh) =~= s.push(fresh));
    }
}

impl TransactionsStats {
    pub fn new() -> (r: TransactionsStats)
        ensures
            r@.len() == 0,
            r.pending@.len() == 0,
    {
        TransactionsStats { pending: Vec::new() }
    }

    /// The number of transactions that are tracked.
    pub fn len(&self) -> (r: usize)
        ensures
            r == self@.len(),
    {
        self.pending.len()
    }

    fn find(&self, hash: &H256) -> (r: Option<usize>)
        ensures
            r is Some <==> tracks(self@, *hash),
            r matches Some(i) ==> i < self@.len() && self@[i as int].hash == *hash && forall|k: int|
                0 <= k < i ==> (#[trigger] self@[k]).hash != *hash,
    {
        let mut i: usize = 0;
        while i < self.pending.len()
            invariant
                i <= self.pending@.len(),
                forall|k: int| 0 <= k < i ==> (#[trigger] self@[k]).hash != *hash,
            decreases self.pending@.len() - i,
        {
            if self.pending[i].hash == *hash {
                assert(self@[i as int].hash == *hash);
                return Some(i);
            }
            i += 1;
        }
        None
    }

    /// Notes that a transaction was announced to a peer while the best block
    /// had the given number: see `noted`.
    pub fn propagated(&mut self, hash: &H256, peer: PeerId, current_block: BlockNumber)
        ensures
            final(self)@ == noted(old(self)@, *hash, peer, current_block),
            tracks(final(self)@, *hash),
            forall|h: H256| tracks(old(self)@, h) ==> tracks(final(self)@, h),
            forall|h: H256| tracks(final(self)@, h) ==> tracks(old(self)@, h) || h == *hash,
    {
        let ghost a = self@;
        match self.find(hash) {
            Some(i) => {
                self.pending[i].propagated_to.push(peer);
                proof {
                    let b = self@;
                    lemma_noted_at(a, i as int, *hash, peer, current_block);
                    assert(b =~= noted(a, *hash, peer, current_block));
                    assert(b[i as int].hash == *hash);
                    assert forall|h: H256| tracks(a, h) implies tracks(b, h) by {
                        let k = choose|k: int| 0 <= k < a.len() && (#[trigger] a[k]).hash == h;
                        assert(b[k].hash == h);
                    }
                    assert forall|h: H256| tracks(b, h) implies tracks(a, h) || h == *hash by {
                        let k = choose|k: int| 0 <= k < b.len() && (#[trigger] b[k]).hash == h;
                        assert(a[k].hash == h);
                    }
                }
            },
            None => {
                let mut to: Vec<PeerId> = Vec::new();
                to.push(peer);
                self.pending.push(Stats { hash: *hash, first_seen: current_block,
                    propagated_to: to });
                proof {
                    let b = self@;
                    lemma_noted_new(a, *hash, peer, current_block);
                    assert(to@ =~= seq![peer]);
                    assert(b =~= noted(a, *hash, peer, current_block));
                    assert(b[a.len() as int].hash == *hash);
                    assert forall|h: H256| tracks(a, h) implies tracks(b, h) by {
                        let k = choose|k: int| 0 <= k < a.len() && (#[trigger] a[k]).hash == h;
                        assert(b[k].hash == h);
                    }
                    assert forall|h: H256| tracks(b, h) implies tracks(a, h) || h == *hash by {
                        let k = choose|k: int| 0 <= k < b.len() && (#[trigger] b[k]).hash == h;
                        if k < a.len() {
                            assert(a[k].hash == h);
                        }
                    }
                }
            },
        }
    }

    /// Forgets the transactions that are not among the given ones.
    pub fn retain(&mut self, hashes: &HashList)
        ensures
            final(self)@ == retained(old(self)@, hashes.items@),
            forall|h: H256| tracks(final(self)@, h) == (tracks(old(self)@, h) && hashes.has(h)),
            final(self)@.len() <= old(self)@.len(),
    {
        let ghost a = self@;
        let ghost mut j: int = 0;
        let mut i: usize = 0;
        proof {
            assert(a.subrange(0, 0) =~= Seq::<StatsView>::empty());
            assert(self@ =~= retained(a.subrange(0, 0), hashes.items@) + a.subrange(
                0,
                a.len() as int,
            ));
        }
        while i < self.pending.len()
            invariant
                a == old(self)@,
                0 <= j <= a.len(),
                i <= self.pending@.len(),
                i == retained(a.subrange(0, j), hashes.items@).len(),
                self@ =~= retained(a.subrange(0, j), hashes.items@) + a.subrange(j, a.len() as int),
            decreases self.pending@.len() - i,
        {
            let ghost before = self@;
            let ghost done = retained(a.subrange(0, j), hashes.items@);
            proof {
                assert(before[i as int] == (done + a.subrange(j, a.len() as int))[i as int]);
                assert(before[i as int] == a[j]);
                assert(a.subrange(0, j + 1).drop_last() =~= a.subrange(0, j));
                assert(a.subrange(0, j + 1).last() == a[j]);
            }
            if hashes.contains(&self.pending[i].hash) {
                i += 1;
                proof {
                    assert(retained(a.subrange(0, j + 1), hashes.items@) == done.push(a[j]));
                    assert(before =~= done.push(a[j]) + a.subrange(j + 1, a.len() as int));
                }
            } else {
                let _ = self.pending.remove(i);
                proof {
                    assert(retained(a.subrange(0, j + 1), hashes.items@) == done);
                    assert(self@ =~= before.remove(i as int));
                    assert(before.remove(i as int) =~= done + a.subrange(j + 1, a.len() as int));
                }
            }
            proof {
                j = j + 1;
            }
        }
        proof {
            assert(a.subrange(0, a.len() as int) =~= a);
            lemma_retained_tracks(a, hashes.items@);
            assert forall|h: H256| hashes.has(h) == hashes.items@.contains(h) by {}
            lemma_retained_len(a, hashes.items@);
        }
    }
}

/// What is retained is what was tracked and is kept.
pub proof fn lemma_retained_tracks(s: Seq<StatsView>, keep: Seq<H256>)
    ensures
        forall|h: H256| tracks(retained(s, keep), h) == (tracks(s, h) && keep.contains(h)),
    decreases s.len(),
{
    if s.len() > 0 {
        let rest = s.drop_last();
        lemma_retained_tracks(rest, keep);
        let r0 = retained(rest, keep);
        let r = retained(s, keep);
        assert forall|h: H256| tracks(r, h) == (tracks(s, h) && keep.contains(h)) by {
            assert(tracks(r0, h) == (tracks(rest, h) && keep.contains(h)));
            if tracks(r, h) {
                let k = choose|k: int| 0 <= k < r.len() && (#[trigger] r[k]).hash == h;
                if k < r0.len() {
                    assert(r0[k].hash == h);
                    assert(tracks(r0, h));
                    let q = choose|q: int| 0 <= q < rest.len() && (#[trigger] rest[q]).hash == h;
                    assert(s[q].hash == h);
                } else {
                    assert(s[s.len() - 1].hash == h);
                }
            }
            if tracks(s, h) && keep.contains(h) {
                let q = choose|q: int| 0 <= q < s.len() && (#[trigger] s[q]).hash == h;
                if q < rest.len() {
                    assert(rest[q].hash == h);
                    assert(tracks(rest, h));
                    let k = choose|k: int| 0 <= k < r0.len() && (#[trigger] r0[k]).hash == h;
                    assert(r[k].hash == h);
                } else {
                    assert(r[r.len() - 1].hash == h);
                }
            }
        }
    } else {
        assert forall|h: H256| !tracks(retained(s, keep), h) by {}
    }
}

/// No more is retained than there was.
pub proof fn lemma_retained_len(s: Seq<StatsView>, keep: Seq<H256>)
    ensures
        retained(s, keep).len() <= s.len(),
    decreases s.len(),
{
    if s.len() > 0 {
        lemma_retained_len(s.drop_last(), keep);
    }
}

} // verus!
