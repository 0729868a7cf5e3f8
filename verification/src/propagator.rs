//! Spreading the news: new blocks and their hashes, proposed blocks, and
//! messages of the consensus and of private transactions.

use vstd::prelude::*;
use crate::codec::{concat, encoded_list, max_payload, ListWriter};
use crate::env::ChainInfo;
use crate::packets::{block_items, encode_block, encode_hash_number, hash_number_pair};
use crate::peer::PeerInfo;
use crate::peer_map::Entry;
use crate::primitives::{BlockNumber, H256, PeerId, U256};
use crate::primitives::{
    MAX_PEERS_PROPAGATION,
    MIN_PEERS_PROPAGATION,
    PAR_PROTOCOL_VERSION_2,
    PAR_PROTOCOL_VERSION_3,
};
use crate::random::RandomSource;
use crate::relations::Peers;

verus! {

/// Whether `w` is the whole number nearest to the square root of `n`.
pub open spec fn nearest_root(n: nat, w: nat) -> bool {
    let x: int = 2 * (w as int);
    (x - 1) * (x - 1) < 4 * n && 4 * n < (x + 1) * (x + 1)
}

/// The number of peers that news is sent to, out of `n` that could get it:
/// the square root of `n`, rounded, but no fewer than the least and no more
/// than the most.
pub open spec fn is_width(n: nat, w: nat) -> bool {
    if n <= 20 {
        w == MIN_PEERS_PROPAGATION
    } else if n > 16256 {
        w == MAX_PEERS_PROPAGATION
    } else {
        MIN_PEERS_PROPAGATION <= w <= MAX_PEERS_PROPAGATION && nearest_root(n, w)
    }
}

/// The number of peers that news is sent to, out of `n` that could get it.
pub fn propagation_width(n: usize) -> (w: usize)
    ensures
        is_width(n as nat, w as nat),
{
    if n <= 20 {
        return MIN_PEERS_PROPAGATION;
    }
    if n > 16256 {
        return MAX_PEERS_PROPAGATION;
    }
    let mut w: usize = 5;
    let mut limit: usize = 30;
    while limit < n
        invariant
            5 <= w <= 127,
            20 < n <= 16256,
            limit == w * w + w,
            (w - 1) * (w - 1) + (w - 1) < n,
        decreases 128 - w,
    {
        assert(w < 127) by (nonlinear_arith)
            requires
                w * w + w < n,
                n <= 16256,
                5 <= w <= 127,
        ;
        assert((w + 1) * (w + 1) + (w + 1) == w * w + w + 2 * (w + 1)) by (nonlinear_arith);
        w += 1;
        limit = limit + 2 * w;
    }
    assert(nearest_root(n as nat, w as nat)) by (nonlinear_arith)
        requires
            (w - 1) * (w - 1) + (w - 1) < n,
            n <= w * w + w,
            5 <= w,
    ;
    w
}

/// Whether `picked` is the beginning of some ordering of `all`.
pub open spec fn is_selection(all: Seq<PeerId>, picked: Seq<PeerId>) -> bool {
    exists|order: Seq<PeerId>|
        #![auto]
        order.to_multiset() == all.to_multiset() && picked.is_prefix_of(order)
}

/// Picks at random the peers that news is sent to: as many as
/// `propagation_width` says, or all where there are fewer.
pub fn select_random_peers(random: &mut RandomSource, peers: &Vec<PeerId>) -> (r: Vec<PeerId>)
    ensures
        is_selection(peers@, r@),
        peers@.len() >= MIN_PEERS_PROPAGATION ==> is_width(peers@.len(), r@.len()),
        peers@.len() < MIN_PEERS_PROPAGATION ==> r@.len() == peers@.len(),
{
    let mut order: Vec<PeerId> = Vec::new();
    let mut i: usize = 0;
    while i < peers.len()
        invariant
            i <= peers@.len(),
            order@ == peers@.subrange(0, i as int),
        decreases peers@.len() - i,
    {
        order.push(peers[i]);
        assert(order@ =~= peers@.subrange(0, i + 1));
        i += 1;
    }
    assert(peers@.subrange(0, peers@.len() as int) =~= peers@);
    let count = propagation_width(peers.len());
    random.shuffle(&mut order);
    let ghost shuffled = order@;
    proof {
        shuffled.to_multiset_ensures();
        peers@.to_multiset_ensures();
        assert(shuffled.len() == peers@.len());
    }
    order.truncate(count);
    proof {
        assert(order@.is_prefix_of(shuffled));
        let n = peers@.len();
        if n >= MIN_PEERS_PROPAGATION {
            if 20 < n <= 16256 {
                let x: int = 2 * (count as int);
                assert(count <= n) by (nonlinear_arith)
                    requires
                        (x - 1) * (x - 1) < 4 * n,
                        x == 2 * count,
                        5 <= n,
                        4 <= count,
                ;
            }
        }
    }
    order
}

/// The ids of the peers whose record meets `wanted`, in the order of the
/// registry.
pub open spec fn ids_where(s: Seq<Entry<PeerInfo>>, wanted: spec_fn(PeerInfo) -> bool) -> Seq<
    PeerId,
>
    decreases s.len(),
{
    if s.len() == 0 {
        Seq::empty()
    } else if wanted(s.last().value) {
        ids_where(s.drop_last(), wanted).push(s.last().id)
    } else {
        ids_where(s.drop_last(), wanted)
    }
}

/// The peers whose head is not the given block.
pub open spec fn lagging(s: Seq<Entry<PeerInfo>>, best: H256) -> Seq<PeerId> {
    ids_where(s, |p: PeerInfo| p.latest_hash != best)
}

/// The peers that speak at least the given version of the protocol.
pub open spec fn speaking(s: Seq<Entry<PeerInfo>>, version: u8) -> Seq<PeerId> {
    ids_where(s, |p: PeerInfo| p.protocol_version >= version)
}

/// The peers whose head is not our best block.
pub fn get_lagging_peers(peers: &Peers, chain_info: &ChainInfo) -> (r: Vec<PeerId>)
    ensures
        r@ == lagging(peers.entries@, chain_info.best_block_hash),
{
    let ghost wanted = |p: PeerInfo| p.latest_hash != chain_info.best_block_hash;
    let mut r: Vec<PeerId> = Vec::new();
    let mut i: usize = 0;
    while i < peers.entries.len()
        invariant
            i <= peers.entries@.len(),
            wanted == |p: PeerInfo| p.latest_hash != chain_info.best_block_hash,
            r@ == ids_where(peers.entries@.subrange(0, i as int), wanted),
        decreases peers.entries@.len() - i,
    {
        proof {
            assert(peers.entries@.subrange(0, i + 1).drop_last() =~= peers.entries@.subrange(
                0,
                i as int,
            ));
        }
        if peers.entries[i].value.latest_hash != chain_info.best_block_hash {
            r.push(peers.entries[i].id);
        }
        i += 1;
    }
    assert(peers.entries@.subrange(0, peers.entries@.len() as int) =~= peers.entries@);
    r
}

/// The peers that speak at least the given version of the protocol.
pub fn peers_speaking(peers: &Peers, version: u8) -> (r: Vec<PeerId>)
    ensures
        r@ == speaking(peers.entries@, version),
{
    let ghost wanted = |p: PeerInfo| p.protocol_version >= version;
    let mut r: Vec<PeerId> = Vec::new();
    let mut i: usize = 0;
    while i < peers.entries.len()
        invariant
            i <= peers.entries@.len(),
            wanted == |p: PeerInfo| p.protocol_version >= version,
            r@ == ids_where(peers.entries@.subrange(0, i as int), wanted),
        decreases peers.entries@.len() - i,
    {
        proof {
            assert(peers.entries@.subrange(0, i + 1).drop_last() =~= peers.entries@.subrange(
                0,
                i as int,
            ));
        }
        if peers.entries[i].value.protocol_version >= version {
            r.push(peers.entries[i].id);
        }
        i += 1;
    }
    assert(peers.entries@.subrange(0, peers.entries@.len() as int) =~= peers.entries@);
    r
}

/// The peers that take consensus messages.
pub fn get_consensus_peers(peers: &Peers) -> (r: Vec<PeerId>)
    ensures
        r@ == speaking(peers.entries@, PAR_PROTOCOL_VERSION_2),
{
    peers_speaking(peers, PAR_PROTOCOL_VERSION_2)
}

/// The peers that take private transactions.
pub fn get_private_transaction_peers(peers: &Peers) -> (r: Vec<PeerId>)
    ensures
        r@ == speaking(peers.entries@, PAR_PROTOCOL_VERSION_3),
{
    peers_speaking(peers, PAR_PROTOCOL_VERSION_3)
}

/// Encodes the announcement of a block: the block as it is and its total
/// difficulty.
pub fn create_block_rlp(bytes: &Vec<u8>, total_difficulty: U256) -> (r: Vec<u8>)
    ensures
        bytes@.len() + 33 <= max_payload() ==> r@ == encoded_list(
            block_items(bytes@, total_difficulty),
        ),
{
    encode_block(bytes, &total_difficulty)
}

/// The pairs of an announcement of hashes, one item each.
pub open spec fn pair_items(hashes: Seq<H256>, numbers: Seq<BlockNumber>) -> Seq<Seq<u8>> {
    Seq::new(hashes.len(), |i: int| hash_number_pair(hashes[i], numbers[i]))
}

/// Whether `data` announces the given hashes with the given numbers: as a
/// list of pairs, at least one, as far as it is written in full.
pub open spec fn announces(data: Seq<u8>, hashes: Seq<H256>, numbers: Seq<BlockNumber>) -> bool {
    &&& hashes.len() == numbers.len()
    &&& hashes.len() >= 1
    &&& hashes.len() <= MAX_ANNOUNCED ==> data == encoded_list(pair_items(hashes, numbers))
}

/// Whether `data` announces the given block with the given total
/// difficulty, as far as it is written in full.
pub open spec fn announces_block(data: Seq<u8>, block: Seq<u8>, difficulty: U256) -> bool {
    block.len() + 33 <= max_payload() ==> data == encoded_list(block_items(block, difficulty))
}

/// The most hashes that an announcement is written with in full.
pub const MAX_ANNOUNCED: usize = 10_000_000;

/// Encodes an announcement of hashes with the numbers of their blocks.
pub fn encode_new_hashes(hashes: &Vec<H256>, numbers: &Vec<BlockNumber>) -> (r: Vec<u8>)
    requires
        hashes@.len() == numbers@.len(),
    ensures
        hashes@.len() <= MAX_ANNOUNCED ==> r@ == encoded_list(pair_items(hashes@, numbers@)),
        hashes@.len() <= MAX_ANNOUNCED ==> concat(pair_items(hashes@, numbers@)).len() <= 48
            * hashes@.len(),
{
    let n: usize = hashes.len();
    let mut w = ListWriter::new(n);
    let mut i: usize = 0;
    while i < n
        invariant
            i <= n,
            n == hashes@.len(),
            n == numbers@.len(),
            w.capacity() == n,
            w.items() == pair_items(hashes@.subrange(0, i as int), numbers@.subrange(0, i as int)),
            w.payload_len() <= 48 * i,
        decreases n - i,
    {
        let pair = encode_hash_number(&hashes[i], numbers[i]);
        proof {
            lemma_pair_len(hashes@[i as int], numbers@[i as int]);
            assert(pair_items(
                hashes@.subrange(0, i as int),
                numbers@.subrange(0, i as int),
            ).push(pair@) =~= pair_items(hashes@.subrange(0, i + 1), numbers@.subrange(0, i + 1)));
        }
        w.raw(pair.as_slice());
        i += 1;
    }
    proof {
        assert(hashes@.subrange(0, n as int) =~= hashes@);
        assert(numbers@.subrange(0, n as int) =~= numbers@);
    }
    w.finish()
}

/// Whether the number of every block is known.
pub open spec fn all_known(numbers: Seq<Option<BlockNumber>>) -> bool {
    forall|i: int| 0 <= i < numbers.len() ==> (#[trigger] numbers[i]) is Some
}

/// The numbers of the blocks, where all are known.
pub open spec fn known(numbers: Seq<Option<BlockNumber>>) -> Seq<BlockNumber> {
    Seq::new(
        numbers.len(),
        |i: int|
            match numbers[i] {
                Some(n) => n,
                None => 0,
            },
    )
}

/// A payload that may be there, as plain bytes.
pub open spec fn payload(r: Option<Vec<u8>>) -> Option<Seq<u8>> {
    match r {
        Some(data) => Some(data@),
        None => None,
    }
}

/// Writes the announcement of the given hashes, where there is one at
/// least and the number of every block is known.
pub fn announce_hashes(hashes: &Vec<H256>, numbers: &Vec<Option<BlockNumber>>) -> (r: Option<
    Vec<u8>,
>)
    requires
        hashes@.len() == numbers@.len(),
    ensures
        r is Some <==> hashes@.len() >= 1 && all_known(numbers@),
        r matches Some(data) ==> announces(data@, hashes@, known(numbers@)),
{
    if hashes.len() == 0 {
        return None;
    }
    let mut plain: Vec<BlockNumber> = Vec::new();
    let mut i: usize = 0;
    while i < numbers.len()
        invariant
            i <= numbers@.len(),
            plain@.len() == i,
            forall|k: int| 0 <= k < i ==> (#[trigger] numbers@[k]) == Some(plain@[k]),
        decreases numbers@.len() - i,
    {
        match numbers[i] {
            Some(n) => {
                plain.push(n);
            },
            None => {
                return None;
            },
        }
        i += 1;
    }
    proof {
        assert(plain@ =~= known(numbers@));
    }
    Some(encode_new_hashes(hashes, &plain))
}

/// Whether `r` is the announcement of the way that the chain client told:
/// the blocks of `route`, then `uncles`, with the numbers that it told of
/// them.  There is none where there is no way, or no block on it, or a
/// block whose number the chain client does not tell.
pub open spec fn route_announced(
    route: Option<Seq<H256>>,
    uncles: Option<Seq<H256>>,
    numbers: Seq<Option<BlockNumber>>,
    r: Option<Seq<u8>>,
) -> bool {
    match route {
        None => r is None,
        Some(blocks) => if blocks.len() == 0 {
            r is None
        } else {
            let all = blocks + match uncles {
                Some(u) => u,
                None => Seq::empty(),
            };
            &&& numbers.len() == all.len()
            &&& r is Some <==> all_known(numbers)
            &&& r is Some ==> announces(r->0, all, known(numbers))
        },
    }
}

/// Whether `r` is the announcement of a block that the chain client handed
/// out with its total difficulty; there is none where either is missing.
pub open spec fn block_announced(
    block: Option<Seq<u8>>,
    difficulty: Option<U256>,
    r: Option<Seq<u8>>,
) -> bool {
    if block is Some && difficulty is Some {
        r is Some && announces_block(r->0, block->0, difficulty->0)
    } else {
        r is None
    }
}

/// Writes the announcement of a block, where the block and its total
/// difficulty are there.
pub fn announce_block(block: Option<Vec<u8>>, difficulty: Option<U256>) -> (r: Option<Vec<u8>>)
    ensures
        block_announced(payload(block), difficulty, payload(r)),
{
    match (block, difficulty) {
        (Some(block), Some(difficulty)) => Some(create_block_rlp(&block, difficulty)),
        _ => None,
    }
}

/// A pair of a hash and a number has at most 48 bytes.
pub proof fn lemma_pair_len(hash: H256, number: BlockNumber)
    ensures
        hash_number_pair(hash, number).len() <= 48,
{
    crate::codec::lemma_hash_len(hash);
    crate::codec::lemma_uint64_len(number);
    let items = seq![
        crate::codec::encoded_bytes(hash.bytes()),
        crate::codec::encoded_uint(number as nat),
    ];
    let i0 = Seq::<Seq<u8>>::empty();
    let i1 = i0.push(crate::codec::encoded_bytes(hash.bytes()));
    crate::codec::lemma_concat_push(i0, crate::codec::encoded_bytes(hash.bytes()));
    crate::codec::lemma_concat_push(i1, crate::codec::encoded_uint(number as nat));
    assert(i1.push(crate::codec::encoded_uint(number as nat)) =~= items);
    crate::codec::lemma_header_len(0xc0, concat(items).len());
}

} // verus!
