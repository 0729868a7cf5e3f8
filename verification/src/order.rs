//! The order in which peers are offered work: a random one, then sorted by
//! protocol version.

use vstd::prelude::*;
use vstd::multiset::Multiset;
use crate::peer::PeerInfo;
use crate::peer_map::{has_id, position, Entry};
use crate::primitives::PeerId;
use crate::random::RandomSource;
use crate::relations::Peers;

verus! {

/// The ids of the peers that can be sent requests, in the order of the
/// registry.
pub open spec fn eligible_ids(s: Seq<Entry<PeerInfo>>) -> Seq<PeerId>
    decreases s.len(),
{
    if s.len() == 0 {
        Seq::empty()
    } else if s.last().value.spec_can_sync() {
        eligible_ids(s.drop_last()).push(s.last().id)
    } else {
        eligible_ids(s.drop_last())
    }
}

/// The protocol version of a peer; zero for one that is not registered.
pub open spec fn version_of(s: Seq<Entry<PeerInfo>>, id: PeerId) -> u8 {
    if has_id(s, id) {
        s[position(s, id)].value.protocol_version
    } else {
        0
    }
}

/// Whether the ids stand in ascending order of protocol version.
pub open spec fn ascending(s: Seq<Entry<PeerInfo>>, ids: Seq<PeerId>) -> bool {
    forall|i: int, j: int|
        0 <= i < j < ids.len() ==> version_of(s, ids[i]) <= version_of(s, ids[j])
}

fn version(peers: &Peers, id: PeerId) -> (r: u8)
    requires
        peers.wf(),
    ensures
        r == version_of(peers.entries@, id),
{
    match peers.get(id) {
        Some(p) => p.protocol_version,
        None => 0,
    }
}

fn collect_eligible(peers: &Peers) -> (r: Vec<PeerId>)
    ensures
        r@ == eligible_ids(peers.entries@),
{
    let mut r: Vec<PeerId> = Vec::new();
    let mut i: usize = 0;
    while i < peers.entries.len()
        invariant
            i <= peers.entries@.len(),
            r@ == eligible_ids(peers.entries@.subrange(0, i as int)),
        decreases peers.entries@.len() - i,
    {
        proof {
            assert(peers.entries@.subrange(0, i + 1).drop_last() =~= peers.entries@.subrange(
                0,
                i as int,
            ));
        }
        if peers.entries[i].value.can_sync() {
            r.push(peers.entries[i].id);
        }
        i += 1;
    }
    assert(peers.entries@.subrange(0, peers.entries@.len() as int) =~= peers.entries@);
    r
}

/// The index of a peer of the lowest version among `ids`.
fn lowest(peers: &Peers, ids: &Vec<PeerId>) -> (r: usize)
    requires
        peers.wf(),
        ids@.len() > 0,
    ensures
        r < ids@.len(),
        forall|k: int|
            0 <= k < ids@.len() ==> version_of(peers.entries@, ids@[r as int]) <= version_of(
                peers.entries@,
                ids@[k],
            ),
{
    let mut best: usize = 0;
    let mut best_version: u8 = version(peers, ids[0]);
    let mut i: usize = 1;
    while i < ids.len()
        invariant
            1 <= i <= ids@.len(),
            best < i,
            best_version == version_of(peers.entries@, ids@[best as int]),
            forall|k: int|
                0 <= k < i ==> best_version <= version_of(peers.entries@, ids@[k]),
            peers.wf(),
        decreases ids@.len() - i,
    {
        let v: u8 = version(peers, ids[i]);
        if v < best_version {
            best = i;
            best_version = v;
        }
        i += 1;
    }
    best
}

/// The peers that can be sent requests, shuffled and then put in ascending
/// order of protocol version.
pub fn sync_order(peers: &Peers, random: &mut RandomSource) -> (r: Vec<PeerId>)
    requires
        peers.wf(),
    ensures
        r@.to_multiset() == eligible_ids(peers.entries@).to_multiset(),
        ascending(peers.entries@, r@),
{
    broadcast use vstd::multiset::group_multiset_axioms;

    let mut rest = collect_eligible(peers);
    random.shuffle(&mut rest);
    let ghost all: Multiset<PeerId> = rest@.to_multiset();
    let mut r: Vec<PeerId> = Vec::new();
    assert(r@.to_multiset() =~= Multiset::<PeerId>::empty()) by {
        r@.to_multiset_ensures();
        assert(r@.to_multiset().len() == 0);
    }
    while rest.len() > 0
        invariant
            peers.wf(),
            r@.to_multiset().add(rest@.to_multiset()) == all,
            ascending(peers.entries@, r@),
            forall|i: int, k: int|
                0 <= i < r@.len() && 0 <= k < rest@.len() ==> version_of(peers.entries@, r@[i])
                    <= version_of(peers.entries@, rest@[k]),
        decreases rest@.len(),
    {
        let j = lowest(peers, &rest);
        let ghost before = rest@;
        let ghost done = r@;
        let x = rest.remove(j);
        r.push(x);
        proof {
            vstd::seq_lib::to_multiset_remove(before, j as int);
            vstd::seq_lib::to_multiset_build(done, x);
            vstd::seq_lib::to_multiset_contains(before, x);
            assert(before.contains(x));
            assert(r@.to_multiset().add(rest@.to_multiset()) =~= done.to_multiset().add(
                before.to_multiset(),
            ));
            assert forall|k: int| 0 <= k < rest@.len() implies version_of(peers.entries@, x)
                <= version_of(peers.entries@, rest@[k]) by {
                let k0 = if k < j { k } else { k + 1 };
                assert(rest@[k] == before[k0]);
            }
            assert forall|i: int, k: int| 0 <= i < r@.len() && 0 <= k < rest@.len()
                implies version_of(
                peers.entries@,
                r@[i],
            ) <= version_of(peers.entries@, rest@[k]) by {
                let k0 = if k < j { k } else { k + 1 };
                assert(rest@[k] == before[k0]);
                if i < done.len() {
                    assert(r@[i] == done[i]);
                }
            }
            assert forall|i: int, k: int| 0 <= i < k < r@.len() implies version_of(
                peers.entries@,
                r@[i],
            ) <= version_of(peers.entries@, r@[k]) by {
                if k < done.len() {
                    assert(r@[i] == done[i] && r@[k] == done[k]);
                } else {
                    assert(r@[i] == done[i]);
                    assert(before[j as int] == x);
                }
            }
        }
    }
    proof {
        rest@.to_multiset_ensures();
        assert(rest@.to_multiset().len() == 0);
        assert(rest@.to_multiset() =~= Multiset::<PeerId>::empty());
        assert(r@.to_multiset() =~= all);
    }
    r
}

} // verus!
