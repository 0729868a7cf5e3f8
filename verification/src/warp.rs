//! Which snapshot to restore: the one that most peers offer, among those
//! that are far enough ahead of us.

use vstd::prelude::*;
use crate::hash_list::HashList;
use crate::peer::PeerInfo;
use crate::peer_map::Entry;
use crate::primitives::{BlockNumber, H256, PeerId, Timestamp};
use crate::primitives::{SNAPSHOT_MIN_PEERS, SNAPSHOT_RESTORE_THRESHOLD, WAIT_PEERS_TIMEOUT};
use crate::relations::Peers;
use crate::status::SyncState;

verus! {

/// What a snapshot is held against.
#[derive(Clone, Copy, Debug)]
pub struct SnapshotQuery {
    /// Number of our best block.
    pub our_best: BlockNumber,
    /// Number of the fork block; zero where none is set.
    pub fork_block: BlockNumber,
    /// The block that a snapshot must be beyond; zero where none is set.
    pub expected_warp_block: BlockNumber,
    /// Highest block number heard of.
    pub highest: Option<BlockNumber>,
}

/// What to do about snapshots.
#[derive(Clone, Copy, Debug, PartialEq, Eq, Structural)]
pub enum SnapshotChoice {
    /// Fetch the snapshot that was picked.
    Start,
    /// Give up on snapshots and download blocks.
    FullSync,
    /// Leave things as they are.
    Wait,
}

impl SnapshotQuery {
    /// Whether a snapshot of the given block is worth restoring: more than
    /// the threshold ahead of us, beyond the fork block and the expected
    /// block, and no more than the threshold behind the highest block heard
    /// of.
    pub open spec fn spec_accepts(&self, number: BlockNumber) -> bool {
        &&& self.our_best < number
        &&& number - self.our_best > SNAPSHOT_RESTORE_THRESHOLD
        &&& number > self.fork_block
        &&& number > self.expected_warp_block
        &&& match self.highest {
            Some(highest) => highest >= number && highest - number <= SNAPSHOT_RESTORE_THRESHOLD,
            None => true,
        }
    }

    /// The snapshot that a peer offers and that may be restored: the peer
    /// counts, its snapshot is worth restoring and not known to be bad.
    pub open spec fn spec_candidate(&self, p: PeerInfo, bad: HashList) -> Option<H256> {
        if p.spec_is_allowed() && p.snapshot_number is Some && self.spec_accepts(
            p.snapshot_number->0,
        ) && p.snapshot_hash is Some && !bad.has(p.snapshot_hash->0) {
            p.snapshot_hash
        } else {
            None
        }
    }

    pub fn accepts(&self, number: BlockNumber) -> (r: bool)
        ensures
            r == self.spec_accepts(number),
    {
        self.our_best < number && number - self.our_best > SNAPSHOT_RESTORE_THRESHOLD && number
            > self.fork_block && number > self.expected_warp_block && match self.highest {
            Some(highest) => highest >= number && highest - number <= SNAPSHOT_RESTORE_THRESHOLD,
            None => true,
        }
    }

    pub fn candidate(&self, p: &PeerInfo, bad: &HashList) -> (r: Option<H256>)
        ensures
            r == self.spec_candidate(*p, *bad),
    {
        if !p.is_allowed() {
            return None;
        }
        match p.snapshot_number {
            Some(number) => {
                if !self.accepts(number) {
                    return None;
                }
            },
            None => {
                return None;
            },
        }
        match p.snapshot_hash {
            Some(hash) => if bad.contains(&hash) {
                None
            } else {
                Some(hash)
            },
            None => None,
        }
    }
}

/// The peers that offer the snapshot `hash`, in the order of the registry.
pub open spec fn supporters(s: Seq<Entry<PeerInfo>>, q: SnapshotQuery, bad: HashList, hash: H256)
    -> Seq<PeerId>
    decreases s.len(),
{
    if s.len() == 0 {
        Seq::empty()
    } else if q.spec_candidate(s.last().value, bad) == Some(hash) {
        supporters(s.drop_last(), q, bad, hash).push(s.last().id)
    } else {
        supporters(s.drop_last(), q, bad, hash)
    }
}

/// A snapshot that a peer offers has a supporter.
pub proof fn lemma_candidate_supported(
    s: Seq<Entry<PeerInfo>>,
    q: SnapshotQuery,
    bad: HashList,
    k: int,
)
    requires
        0 <= k < s.len(),
        q.spec_candidate(s[k].value, bad) is Some,
    ensures
        supporters(s, q, bad, q.spec_candidate(s[k].value, bad)->0).len() >= 1,
    decreases s.len(),
{
    if k < s.len() - 1 {
        assert(s.drop_last()[k] == s[k]);
        lemma_candidate_supported(s.drop_last(), q, bad, k);
    }
}

/// Whether `best` and `peers` name the snapshot with the most supporters and
/// those supporters; no snapshot where no peer offers one.
pub open spec fn is_best_snapshot(
    s: Seq<Entry<PeerInfo>>,
    q: SnapshotQuery,
    bad: HashList,
    best: Option<H256>,
    peers: Seq<PeerId>,
) -> bool {
    match best {
        Some(hash) => {
            &&& peers == supporters(s, q, bad, hash)
            &&& peers.len() >= 1
            &&& forall|k: int|
                0 <= k < s.len() && q.spec_candidate((#[trigger] s[k]).value, bad) is Some
                    ==> supporters(s, q, bad, q.spec_candidate(s[k].value, bad)->0).len()
                    <= peers.len()
        },
        None => {
            &&& peers.len() == 0
            &&& forall|k: int|
                0 <= k < s.len() ==> q.spec_candidate((#[trigger] s[k]).value, bad) is None
        },
    }
}

/// The peers that offer the snapshot `hash`.
pub fn supporters_of(peers: &Peers, q: &SnapshotQuery, bad: &HashList, hash: &H256) -> (r: Vec<
    PeerId,
>)
    ensures
        r@ == supporters(peers.entries@, *q, *bad, *hash),
{
    let mut r: Vec<PeerId> = Vec::new();
    let mut i: usize = 0;
    while i < peers.entries.len()
        invariant
            i <= peers.entries@.len(),
            r@ == supporters(peers.entries@.subrange(0, i as int), *q, *bad, *hash),
        decreases peers.entries@.len() - i,
    {
        proof {
            assert(peers.entries@.subrange(0, i + 1).drop_last() =~= peers.entries@.subrange(
                0,
                i as int,
            ));
        }
        if q.candidate(&peers.entries[i].value, bad) == Some(*hash) {
            r.push(peers.entries[i].id);
        }
        i += 1;
    }
    assert(peers.entries@.subrange(0, peers.entries@.len() as int) =~= peers.entries@);
    r
}

/// Picks the snapshot that most peers offer, with the peers that offer it.
pub fn best_snapshot(peers: &Peers, q: &SnapshotQuery, bad: &HashList) -> (r: (
    Option<H256>,
    Vec<PeerId>,
))
    ensures
        is_best_snapshot(peers.entries@, *q, *bad, r.0, r.1@),
{
    let mut best: Option<H256> = None;
    let mut best_peers: Vec<PeerId> = Vec::new();
    let mut i: usize = 0;
    while i < peers.entries.len()
        invariant
            i <= peers.entries@.len(),
            best matches Some(hash) ==> best_peers@ == supporters(peers.entries@, *q, *bad, hash)
                && best_peers@.len() >= 1,
            best is None ==> best_peers@.len() == 0,
            best is None ==> forall|k: int|
                0 <= k < i ==> q.spec_candidate((#[trigger] peers.entries@[k]).value, *bad) is None,
            forall|k: int|
                0 <= k < i && q.spec_candidate((#[trigger] peers.entries@[k]).value, *bad) is Some
                    ==> supporters(
                    peers.entries@,
                    *q,
                    *bad,
                    q.spec_candidate(peers.entries@[k].value, *bad)->0,
                ).len() <= best_peers@.len(),
        decreases peers.entries@.len() - i,
    {
        if let Some(hash) = q.candidate(&peers.entries[i].value, bad) {
            let found = supporters_of(peers, q, bad, &hash);
            proof {
                lemma_candidate_supported(peers.entries@, *q, *bad, i as int);
            }
            if found.len() > best_peers.len() {
                best = Some(hash);
                best_peers = found;
            }
        }
        i += 1;
    }
    (best, best_peers)
}

/// What to do about snapshots: start with the snapshot picked where enough
/// peers offer it or time is up; download blocks where time is up, no
/// snapshot is on offer and one is not insisted on; else wait.
pub open spec fn spec_snapshot_choice(
    has_candidate: bool,
    support: nat,
    timeout: bool,
    warp_only: bool,
) -> SnapshotChoice {
    if has_candidate {
        if support >= SNAPSHOT_MIN_PEERS || timeout {
            SnapshotChoice::Start
        } else {
            SnapshotChoice::Wait
        }
    } else if timeout && !warp_only {
        SnapshotChoice::FullSync
    } else {
        SnapshotChoice::Wait
    }
}

pub fn snapshot_choice(has_candidate: bool, support: usize, timeout: bool, warp_only: bool) -> (r:
    SnapshotChoice)
    ensures
        r == spec_snapshot_choice(has_candidate, support as nat, timeout, warp_only),
{
    if has_candidate {
        if support >= SNAPSHOT_MIN_PEERS || timeout {
            SnapshotChoice::Start
        } else {
            SnapshotChoice::Wait
        }
    } else if timeout && !warp_only {
        SnapshotChoice::FullSync
    } else {
        SnapshotChoice::Wait
    }
}

/// Whether the wait for peers with a snapshot has lasted too long.
pub open spec fn spec_wait_is_over(state: SyncState, start: Option<Timestamp>, now: Timestamp)
    -> bool {
    state == SyncState::WaitingPeers && start is Some && now > start->0 && now - start->0
        > WAIT_PEERS_TIMEOUT
}

pub fn wait_is_over(state: SyncState, start: Option<Timestamp>, now: Timestamp) -> (r: bool)
    ensures
        r == spec_wait_is_over(state, start, now),
{
    state == SyncState::WaitingPeers && match start {
        Some(t) => now > t && now - t > WAIT_PEERS_TIMEOUT,
        None => false,
    }
}

} // verus!
