//! The payloads that the synchroniser sends, each stated as the list it
//! encodes.

use vstd::prelude::*;
use crate::codec::{concat, encoded_bytes, encoded_list, encoded_uint, max_payload, ListWriter};
use crate::primitives::{BlockNumber, H256, U256};

verus! {

/// The payload of the request for headers from a block given by its hash.
pub open spec fn headers_by_hash_items(start: H256, count: u64, skip: u64, reverse: bool) -> Seq<
    Seq<u8>,
> {
    seq![
        encoded_bytes(start.bytes()),
        encoded_uint(count as nat),
        encoded_uint(skip as nat),
        encoded_uint(if reverse { 1nat } else { 0nat }),
    ]
}

/// The payload of the request for the one header of a block given by its
/// number.
pub open spec fn header_by_number_items(number: BlockNumber) -> Seq<Seq<u8>> {
    seq![encoded_uint(number as nat), encoded_uint(1), encoded_uint(0), encoded_uint(0)]
}

/// The encodings of the hashes, one item each.
pub open spec fn hash_items(hashes: Seq<H256>) -> Seq<Seq<u8>> {
    hashes.map_values(|h: H256| encoded_bytes(h.bytes()))
}

/// One `(hash, number)` pair of an announcement of new blocks.
pub open spec fn hash_number_pair(hash: H256, number: BlockNumber) -> Seq<u8> {
    encoded_list(seq![encoded_bytes(hash.bytes()), encoded_uint(number as nat)])
}

/// The items of a block announcement: the block and its total difficulty.
pub open spec fn block_items(block: Seq<u8>, total_difficulty: U256) -> Seq<Seq<u8>> {
    seq![block, encoded_uint(total_difficulty.value())]
}

/// The five items that every status message starts with.
pub open spec fn status_items(
    protocol: u8,
    network_id: u64,
    total_difficulty: U256,
    best_hash: H256,
    genesis_hash: H256,
) -> Seq<Seq<u8>> {
    seq![
        encoded_uint(protocol as nat),
        encoded_uint(network_id as nat),
        encoded_uint(total_difficulty.value()),
        encoded_bytes(best_hash.bytes()),
        encoded_bytes(genesis_hash.bytes()),
    ]
}

/// The two items that a status message of the snapshot-capable protocol
/// adds.
pub open spec fn status_snapshot_items(manifest_hash: H256, manifest_number: BlockNumber) -> Seq<
    Seq<u8>,
> {
    seq![encoded_bytes(manifest_hash.bytes()), encoded_uint(manifest_number as nat)]
}

/// Encodes the request for `count` headers from the block `start`, leaving
/// out `skip` blocks between two headers.
pub fn encode_headers_by_hash(start: &H256, count: u64, skip: u64, reverse: bool) -> (r: Vec<u8>)
    ensures
        r@ == encoded_list(headers_by_hash_items(*start, count, skip, reverse)),
{
    let mut w = ListWriter::new(4);
    let flag: u64 = if reverse { 1 } else { 0 };
    w.hash(start);
    w.uint(count);
    w.uint(skip);
    w.uint(flag);
    assert(w.items() =~= headers_by_hash_items(*start, count, skip, reverse));
    w.finish()
}

/// Encodes the request for the one header of the block with the given
/// number.
pub fn encode_header_by_number(number: BlockNumber) -> (r: Vec<u8>)
    ensures
        r@ == encoded_list(header_by_number_items(number)),
{
    let mut w = ListWriter::new(4);
    w.uint(number);
    w.uint(1);
    w.uint(0);
    w.uint(0);
    assert(w.items() =~= header_by_number_items(number));
    w.finish()
}

/// The most hashes whose list the encoder writes in full.
pub const MAX_HASHES_IN_LIST: usize = 100_000_000;

/// Encodes a list of hashes.
pub fn encode_hashes(hashes: &Vec<H256>) -> (r: Vec<u8>)
    ensures
        hashes@.len() <= MAX_HASHES_IN_LIST ==> r@ == encoded_list(hash_items(hashes@)),
{
    let n: usize = hashes.len();
    let mut w = ListWriter::new(n);
    let mut i: usize = 0;
    while i < n
        invariant
            i <= n,
            n == hashes@.len(),
            w.capacity() == n,
            w.items() == hash_items(hashes@.subrange(0, i as int)),
            w.payload_len() == 33 * i,
        decreases n - i,
    {
        proof {
            assert(hash_items(hashes@.subrange(0, i as int)).push(
                encoded_bytes(hashes@[i as int].bytes()),
            ) =~= hash_items(hashes@.subrange(0, i + 1)));
        }
        w.hash(&hashes[i]);
        i += 1;
    }
    assert(hashes@.subrange(0, n as int) =~= hashes@);
    w.finish()
}

/// The encoding of a list of hashes has at most five bytes more than its
/// items, which have 33 each.
pub proof fn lemma_hash_list_len(hashes: Seq<H256>)
    requires
        hashes.len() <= MAX_HASHES_IN_LIST,
    ensures
        concat(hash_items(hashes)).len() == 33 * hashes.len(),
        encoded_list(hash_items(hashes)).len() <= 33 * hashes.len() + 5,
    decreases hashes.len(),
{
    if hashes.len() > 0 {
        lemma_hash_list_len(hashes.drop_last());
        assert(hash_items(hashes).drop_last() =~= hash_items(hashes.drop_last()));
        crate::codec::lemma_hash_len(hashes.last());
    }
    let n = concat(hash_items(hashes)).len();
    crate::codec::lemma_header_len(0xc0, n);
}

/// Encodes an empty list.
pub fn encode_empty_list() -> (r: Vec<u8>)
    ensures
        r@ == encoded_list(Seq::empty()),
{
    let w = ListWriter::new(0);
    w.finish()
}

/// Encodes a list of one hash.
pub fn encode_one_hash(hash: &H256) -> (r: Vec<u8>)
    ensures
        r@ == encoded_list(seq![encoded_bytes(hash.bytes())]),
{
    let mut w = ListWriter::new(1);
    w.hash(hash);
    assert(w.items() =~= seq![encoded_bytes(hash.bytes())]);
    w.finish()
}

/// Encodes one `(hash, number)` pair.
pub fn encode_hash_number(hash: &H256, number: BlockNumber) -> (r: Vec<u8>)
    ensures
        r@ == hash_number_pair(*hash, number),
{
    let mut w = ListWriter::new(2);
    w.hash(hash);
    w.uint(number);
    assert(w.items() =~= seq![encoded_bytes(hash.bytes()), encoded_uint(number as nat)]);
    w.finish()
}

/// Encodes the announcement of a block: the block as it is and its total
/// difficulty.
pub fn encode_block(block: &Vec<u8>, total_difficulty: &U256) -> (r: Vec<u8>)
    ensures
        block@.len() + 33 <= max_payload() ==> r@ == encoded_list(
            block_items(block@, *total_difficulty),
        ),
{
    let mut w = ListWriter::new(2);
    w.raw(block.as_slice());
    w.uint256(total_difficulty);
    assert(w.items() =~= block_items(block@, *total_difficulty));
    w.finish()
}

/// Encodes a status message.  With `snapshot` it has seven items: the last
/// two are the hash and the block number of the manifest on offer.
pub fn encode_status(
    protocol: u8,
    network_id: u64,
    total_difficulty: &U256,
    best_hash: &H256,
    genesis_hash: &H256,
    snapshot: Option<(H256, BlockNumber)>,
) -> (r: Vec<u8>)
    ensures
        r@ == encoded_list(
            status_items(protocol, network_id, *total_difficulty, *best_hash, *genesis_hash)
                + match snapshot {
                Some((hash, number)) => status_snapshot_items(hash, number),
                None => Seq::empty(),
            },
        ),
{
    let mut w = ListWriter::new(if snapshot.is_some() { 7 } else { 5 });
    w.uint(protocol as u64);
    w.uint(network_id);
    w.uint256(total_difficulty);
    w.hash(best_hash);
    w.hash(genesis_hash);
    let ghost base = w.items();
    assert(base =~= status_items(
        protocol,
        network_id,
        *total_difficulty,
        *best_hash,
        *genesis_hash,
    ));
    match snapshot {
        Some((hash, number)) => {
            w.hash(&hash);
            w.uint(number);
            assert(w.items() =~= base + status_snapshot_items(hash, number));
        },
        None => {
            assert(w.items() =~= base + Seq::<Seq<u8>>::empty());
        },
    }
    w.finish()
}

/// The encoded items as sequences of bytes.
pub open spec fn raw_items(items: Seq<Vec<u8>>) -> Seq<Seq<u8>> {
    items.map_values(|v: Vec<u8>| v@)
}

/// Encodes a list of items that are already encoded.
pub fn encode_raw_list(items: &Vec<Vec<u8>>) -> (r: Vec<u8>)
    ensures
        concat(raw_items(items@)).len() <= max_payload() ==> r@ == encoded_list(raw_items(items@)),
{
    let n: usize = items.len();
    let mut w = ListWriter::new(n);
    let mut i: usize = 0;
    while i < n
        invariant
            i <= n,
            n == items@.len(),
            w.capacity() == n,
            w.items() == raw_items(items@.subrange(0, i as int)),
        decreases n - i,
    {
        proof {
            assert(raw_items(items@.subrange(0, i as int)).push(items@[i as int]@) =~= raw_items(
                items@.subrange(0, i + 1),
            ));
        }
        w.raw(items[i].as_slice());
        i += 1;
    }
    assert(items@.subrange(0, n as int) =~= items@);
    w.finish()
}

} // verus!
