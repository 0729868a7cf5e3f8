//! What the synchroniser reads from an encoded block header, and the
//! transactions of a packet.

use vstd::prelude::*;
use crate::codec::{
    bytes_at,
    decoded_bytes_at,
    decoded_hash_at,
    decoded_item_at,
    decoded_item_count,
    decoded_u256_at,
    decoded_u64_at,
    hash_at,
    item_at,
    item_count,
    u256_at,
    u64_at,
    PacketDecodeError,
};
use crate::primitives::{BlockNumber, MAX_TRANSACTION_SIZE};

verus! {

/// Whether the item at `index` is a byte string of `len` bytes.
pub open spec fn has_bytes_at(data: Seq<u8>, index: nat, len: nat) -> bool {
    decoded_bytes_at(data, index) matches Some(b) && b.len() == len
}

/// Whether `data` is a list whose first thirteen items are the fields of a
/// block header.
pub open spec fn header_fields_ok(data: Seq<u8>) -> bool {
    &&& decoded_hash_at(data, 0) is Some
    &&& decoded_hash_at(data, 1) is Some
    &&& has_bytes_at(data, 2, 20)
    &&& decoded_hash_at(data, 3) is Some
    &&& decoded_hash_at(data, 4) is Some
    &&& decoded_hash_at(data, 5) is Some
    &&& has_bytes_at(data, 6, 256)
    &&& decoded_u256_at(data, 7) is Some
    &&& decoded_u64_at(data, 8) is Some
    &&& decoded_u256_at(data, 9) is Some
    &&& decoded_u256_at(data, 10) is Some
    &&& decoded_u256_at(data, 11) is Some
    &&& decoded_bytes_at(data, 12) is Some
}

/// Whether every item from the fourteenth on, up to the number of items,
/// can be read.
pub open spec fn seal_ok(data: Seq<u8>) -> bool {
    decoded_item_count(data) matches Some(count) && forall|i: nat|
        13 <= i < count ==> (#[trigger] decoded_item_at(data, i)) is Some
}

/// The number of the block whose header `data` encodes.
pub open spec fn decoded_header_number(data: Seq<u8>) -> Option<BlockNumber> {
    if header_fields_ok(data) && seal_ok(data) {
        decoded_u64_at(data, 8)
    } else {
        None
    }
}

fn expect_bytes(data: &[u8], index: usize, len: usize) -> (r: Result<(), PacketDecodeError>)
    ensures
        r is Ok <==> has_bytes_at(data@, index as nat, len as nat),
{
    let b = bytes_at(data, index)?;
    if b.len() == len {
        Ok(())
    } else {
        Err(PacketDecodeError::Malformed)
    }
}

/// Reads the number of a block from its encoded header, which must hold
/// all the fields of a header.
pub fn decode_header_number(data: &[u8]) -> (r: Result<BlockNumber, PacketDecodeError>)
    ensures
        r is Ok <==> decoded_header_number(data@) is Some,
        r matches Ok(n) ==> decoded_header_number(data@) == Some(n),
{
    let _ = hash_at(data, 0)?;
    let _ = hash_at(data, 1)?;
    expect_bytes(data, 2, 20)?;
    let _ = hash_at(data, 3)?;
    let _ = hash_at(data, 4)?;
    let _ = hash_at(data, 5)?;
    expect_bytes(data, 6, 256)?;
    let _ = u256_at(data, 7)?;
    let number = u64_at(data, 8)?;
    let _ = u256_at(data, 9)?;
    let _ = u256_at(data, 10)?;
    let _ = u256_at(data, 11)?;
    let _ = bytes_at(data, 12)?;
    let count = item_count(data)?;
    let mut i: usize = 13;
    while i < count
        invariant
            13 <= i,
            decoded_item_count(data@) == Some(count as nat),
            forall|k: nat| 13 <= k < i ==> (#[trigger] decoded_item_at(data@, k)) is Some,
        decreases count - i,
    {
        let _ = item_at(data, i)?;
        i += 1;
    }
    Ok(number)
}

/// The transactions among the first `count` items of a packet that are not
/// too large, as they are; nothing where an item cannot be read.
pub open spec fn decoded_transactions(data: Seq<u8>, count: nat) -> Option<Seq<Seq<u8>>>
    decreases count,
{
    if count == 0 {
        Some(Seq::empty())
    } else {
        match decoded_transactions(data, (count - 1) as nat) {
            None => None,
            Some(before) => match decoded_item_at(data, (count - 1) as nat) {
                None => None,
                Some(tx) => if tx.len() > MAX_TRANSACTION_SIZE {
                    Some(before)
                } else {
                    Some(before.push(tx))
                },
            },
        }
    }
}

/// The transactions that a packet brings: all its items but those that are
/// too large.
pub open spec fn packet_transactions(data: Seq<u8>) -> Option<Seq<Seq<u8>>> {
    match decoded_item_count(data) {
        Some(count) => decoded_transactions(data, count),
        None => None,
    }
}

/// Takes the transactions out of a packet.
pub fn collect_transactions(data: &[u8]) -> (r: Result<Vec<Vec<u8>>, PacketDecodeError>)
    ensures
        r is Ok <==> packet_transactions(data@) is Some,
        r matches Ok(txs) ==> packet_transactions(data@) == Some(crate::packets::raw_items(txs@)),
{
    let count = item_count(data)?;
    let mut txs: Vec<Vec<u8>> = Vec::new();
    let mut i: usize = 0;
    while i < count
        invariant
            i <= count,
            decoded_item_count(data@) == Some(count as nat),
            decoded_transactions(data@, i as nat) == Some(crate::packets::raw_items(txs@)),
        decreases count - i,
    {
        proof {
            reveal_with_fuel(decoded_transactions, 2);
        }
        match item_at(data, i) {
            Ok(tx) => {
                if tx.len() <= MAX_TRANSACTION_SIZE {
                    let ghost before = txs@;
                    txs.push(vstd::slice::slice_to_vec(tx));
                    assert(crate::packets::raw_items(txs@) =~= crate::packets::raw_items(
                        before,
                    ).push(tx@));
                }
            },
            Err(e) => {
                proof {
                    assert(((i + 1) as nat - 1) as nat == i as nat);
                    assert(decoded_item_at(data@, i as nat) is None);
                    assert(decoded_transactions(data@, (i + 1) as nat) is None);
                    lemma_transactions_fail(data@, (i + 1) as nat, count as nat);
                }
                return Err(e);
            },
        }
        i += 1;
    }
    Ok(txs)
}

/// Once an item cannot be read, no longer run of items can be.
pub proof fn lemma_transactions_fail(data: Seq<u8>, at: nat, count: nat)
    requires
        at <= count,
        decoded_transactions(data, at) is None,
    ensures
        decoded_transactions(data, count) is None,
    decreases count,
{
    if at < count {
        lemma_transactions_fail(data, at, (count - 1) as nat);
    }
}

} // verus!
