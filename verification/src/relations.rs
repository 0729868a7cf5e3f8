//! How the registry of peers may change while the synchroniser hands out
//! work: who the peers are stays as it is, and a request is in flight only
//! where it was before or where one was queued since.

use vstd::prelude::*;
use crate::action::{requested, Action};
use crate::peer::{BlockSet, ForkConfirmation, PeerAsking, PeerInfo};
use crate::peer_map::{same_ids, Entry, PeerMap};
use crate::primitives::PeerId;

verus! {

/// The registry of peers.
pub type Peers = PeerMap<PeerInfo>;

/// Whether a peer carries a request whose answer is still wanted.
pub open spec fn live(p: PeerInfo) -> bool {
    p.asking != PeerAsking::Nothing && !p.expired
}

/// Whether what a peer told of itself is the same in both records.
pub open spec fn kept(o: PeerInfo, n: PeerInfo) -> bool {
    &&& n.protocol_version == o.protocol_version
    &&& n.genesis == o.genesis
    &&& n.network_id == o.network_id
    &&& n.latest_hash == o.latest_hash
    &&& n.confirmation == o.confirmation
    &&& n.snapshot_hash == o.snapshot_hash
    &&& n.snapshot_number == o.snapshot_number
    &&& n.last_sent_transactions == o.last_sent_transactions
}

/// Whether the record `n` may follow the record `o` of the peer `id`, given
/// the actions queued from `from` on.
pub open spec fn peer_evolves(o: PeerInfo, n: PeerInfo, id: PeerId, acts: Seq<Action>, from: int)
    -> bool {
    &&& kept(o, n)
    &&& live(n) ==> (live(o) && n.asking == o.asking && n.ask_time == o.ask_time) || requested(
        acts,
        from,
        id,
    )
}

/// Whether the registry `n` may follow the registry `o`.
pub open spec fn evolves(
    o: Seq<Entry<PeerInfo>>,
    n: Seq<Entry<PeerInfo>>,
    acts: Seq<Action>,
    from: int,
) -> bool {
    &&& same_ids(o, n)
    &&& forall|i: int|
        0 <= i < o.len() ==> peer_evolves(
            (#[trigger] o[i]).value,
            n[i].value,
            o[i].id,
            acts,
            from,
        )
}

/// Whether every record is well formed.
pub open spec fn all_wf(s: Seq<Entry<PeerInfo>>) -> bool {
    forall|i: int| 0 <= i < s.len() ==> (#[trigger] s[i]).value.wf()
}

pub proof fn lemma_requested_extends(a: Seq<Action>, b: Seq<Action>, from: int, id: PeerId)
    requires
        a.is_prefix_of(b),
        requested(a, from, id),
    ensures
        requested(b, from, id),
{
    let k = choose|k: int| 0 <= k && from <= k < a.len() && (#[trigger] a[k]).is_request_to(id);
    assert(a =~= b.subrange(0, a.len() as int));
    assert(b.subrange(0, a.len() as int)[k] == b[k]);
    assert(b[k].is_request_to(id));
}

pub proof fn lemma_requested_later(a: Seq<Action>, from: int, later: int, id: PeerId)
    requires
        from <= later,
        requested(a, later, id),
    ensures
        requested(a, from, id),
{
    let k = choose|k: int| 0 <= k && later <= k < a.len() && (#[trigger] a[k]).is_request_to(id);
    assert(a[k].is_request_to(id));
}

pub proof fn lemma_evolves_refl(s: Seq<Entry<PeerInfo>>, acts: Seq<Action>, from: int)
    ensures
        evolves(s, s, acts, from),
{
}

pub proof fn lemma_evolves_wf(
    o: Seq<Entry<PeerInfo>>,
    n: Seq<Entry<PeerInfo>>,
    acts: Seq<Action>,
    from: int,
)
    requires
        evolves(o, n, acts, from),
        all_wf(o),
    ensures
        all_wf(n),
{
    assert forall|i: int| 0 <= i < n.len() implies (#[trigger] n[i]).value.wf() by {
        assert(peer_evolves(o[i].value, n[i].value, o[i].id, acts, from));
    }
}

/// One change after another is a change.
pub proof fn lemma_evolves_trans(
    a: Seq<Entry<PeerInfo>>,
    b: Seq<Entry<PeerInfo>>,
    c: Seq<Entry<PeerInfo>>,
    acts1: Seq<Action>,
    from1: int,
    acts2: Seq<Action>,
    from2: int,
)
    requires
        evolves(a, b, acts1, from1),
        evolves(b, c, acts2, from2),
        acts1.is_prefix_of(acts2),
        from1 <= from2,
    ensures
        evolves(a, c, acts2, from1),
{
    assert forall|i: int| 0 <= i < a.len() implies peer_evolves(
        (#[trigger] a[i]).value,
        c[i].value,
        a[i].id,
        acts2,
        from1,
    ) by {
        assert(peer_evolves(a[i].value, b[i].value, a[i].id, acts1, from1));
        assert(peer_evolves(b[i].value, c[i].value, b[i].id, acts2, from2));
        assert(a[i].id == b[i].id);
        if live(c[i].value) {
            if requested(acts2, from2, a[i].id) {
                lemma_requested_later(acts2, from1, from2, a[i].id);
            } else if requested(acts1, from1, a[i].id) {
                lemma_requested_extends(acts1, acts2, from1, a[i].id);
            }
        }
    }
    assert forall|i: int| 0 <= i < a.len() implies (#[trigger] a[i]).id == (#[trigger] c[i]).id by {
        assert(a[i].id == b[i].id);
        assert(b[i].id == c[i].id);
    }
}

/// Changing one record in a way that is allowed changes the registry in a
/// way that is allowed.
pub proof fn lemma_evolves_update(
    s: Seq<Entry<PeerInfo>>,
    t: Seq<Entry<PeerInfo>>,
    at: int,
    acts: Seq<Action>,
    from: int,
)
    requires
        0 <= at < s.len(),
        t.len() == s.len(),
        t[at].id == s[at].id,
        peer_evolves(s[at].value, t[at].value, s[at].id, acts, from),
        forall|i: int| 0 <= i < s.len() && i != at ==> t[i] == s[i],
    ensures
        evolves(s, t, acts, from),
{
    assert forall|i: int| 0 <= i < s.len() implies peer_evolves(
        (#[trigger] s[i]).value,
        t[i].value,
        s[i].id,
        acts,
        from,
    ) by {
        if i != at {
            assert(t[i] == s[i]);
        }
    }
    assert forall|i: int| 0 <= i < s.len() implies (#[trigger] s[i]).id == (#[trigger] t[i]).id by {
        if i != at {
            assert(t[i] == s[i]);
        }
    }
}

/// Whether every request that is in flight in `n` was queued from `from`
/// on, but for those that were for old blocks before, and those of peers
/// that had not shown the fork block.
pub open spec fn renewed(
    o: Seq<Entry<PeerInfo>>,
    n: Seq<Entry<PeerInfo>>,
    acts: Seq<Action>,
    from: int,
) -> bool {
    &&& same_ids(o, n)
    &&& forall|i: int|
        0 <= i < o.len() && live((#[trigger] n[i]).value) ==> requested(acts, from, n[i].id)
            || o[i].value.block_set == Some(BlockSet::OldBlocks) || o[i].value.confirmation
            == ForkConfirmation::Unconfirmed
}

} // verus!
