//! The encoding of a snapshot's manifest.

use vstd::prelude::*;
use crate::codec::{
    decoded_hash,
    decoded_hash_at,
    decoded_item_at,
    decoded_item_count,
    decoded_u64_at,
    encoded_bytes,
    encoded_list,
    encoded_uint,
    hash_at,
    hash_of_item,
    item_at,
    item_count,
    u64_at,
    ListWriter,
    PacketDecodeError,
};
use crate::env::ManifestData;
use crate::packets::{encode_hashes, hash_items};
use crate::primitives::H256;

verus! {

/// The hashes that the items of `data` from `from` on hold, up to the first
/// place where there is no item; nothing where an item holds no hash.
pub open spec fn decoded_hashes_from(data: Seq<u8>, from: nat) -> Option<Seq<H256>>
    decreases data.len() - from,
{
    if from >= data.len() {
        Some(Seq::empty())
    } else {
        match decoded_item_at(data, from) {
            None => Some(Seq::empty()),
            Some(item) => match decoded_hash(item) {
                None => None,
                Some(h) => match decoded_hashes_from(data, from + 1) {
                    None => None,
                    Some(rest) => Some(seq![h] + rest),
                },
            },
        }
    }
}

/// The hashes that a list holds.
pub open spec fn decoded_hashes(data: Seq<u8>) -> Option<Seq<H256>> {
    decoded_hashes_from(data, 0)
}

/// Decodes a list of hashes.  Data that is no list counts as an empty one.
pub fn decode_hashes(data: &[u8]) -> (r: Result<Vec<H256>, PacketDecodeError>)
    ensures
        r is Ok <==> decoded_hashes(data@) is Some,
        r matches Ok(v) ==> decoded_hashes(data@) == Some(v@),
{
    let mut v: Vec<H256> = Vec::new();
    let n: usize = data.len();
    let mut i: usize = 0;
    loop
        invariant
            n == data@.len(),
            i <= data@.len(),
            v@.len() == i,
            decoded_hashes_from(data@, i as nat) is None ==> decoded_hashes(data@) is None,
            decoded_hashes_from(data@, i as nat) matches Some(rest) ==> decoded_hashes(data@)
                == Some(v@ + rest),
        decreases data@.len() - i,
    {
        match item_at(data, i) {
            Ok(item) => {
                match hash_of_item(item) {
                    Ok(h) => {
                        proof {
                            if let Some(rest) = decoded_hashes_from(data@, (i + 1) as nat) {
                                assert(v@ + (seq![h] + rest) =~= v@.push(h) + rest);
                            }
                        }
                        v.push(h);
                        i += 1;
                    },
                    Err(e) => {
                        return Err(e);
                    },
                }
            },
            Err(_) => {
                proof {
                    assert(v@ + Seq::<H256>::empty() =~= v@);
                }
                return Ok(v);
            },
        }
    }
}

/// The manifest that `raw` encodes.  A list of five items is a manifest of
/// version one; any other list starts with the version.
pub open spec fn decoded_manifest(raw: Seq<u8>) -> Option<ManifestView> {
    match decoded_item_count(raw) {
        None => None,
        Some(count) => {
            let start: nat = if count == 5 { 0 } else { 1 };
            let version: Option<u64> = if count == 5 {
                Some(1u64)
            } else {
                decoded_u64_at(raw, 0)
            };
            if version is None || decoded_item_at(raw, start) is None || decoded_hashes(
                decoded_item_at(raw, start)->0,
            ) is None || decoded_item_at(raw, start + 1) is None || decoded_hashes(
                decoded_item_at(raw, start + 1)->0,
            ) is None || decoded_hash_at(raw, start + 2) is None || decoded_u64_at(raw, start + 3)
                is None || decoded_hash_at(raw, start + 4) is None {
                None
            } else {
                Some(
                    ManifestView {
                        version: version->0,
                        state_hashes: decoded_hashes(decoded_item_at(raw, start)->0)->0,
                        block_hashes: decoded_hashes(decoded_item_at(raw, start + 1)->0)->0,
                        state_root: decoded_hash_at(raw, start + 2)->0,
                        block_number: decoded_u64_at(raw, start + 3)->0,
                        block_hash: decoded_hash_at(raw, start + 4)->0,
                    },
                )
            }
        },
    }
}

/// A manifest as plain values.
pub struct ManifestView {
    pub version: u64,
    pub state_hashes: Seq<H256>,
    pub block_hashes: Seq<H256>,
    pub state_root: H256,
    pub block_number: u64,
    pub block_hash: H256,
}

impl View for ManifestData {
    type V = ManifestView;

    open spec fn view(&self) -> ManifestView {
        ManifestView {
            version: self.version,
            state_hashes: self.state_hashes@,
            block_hashes: self.block_hashes@,
            state_root: self.state_root,
            block_number: self.block_number,
            block_hash: self.block_hash,
        }
    }
}

/// The items of an encoded manifest.
pub open spec fn manifest_items(m: ManifestView) -> Seq<Seq<u8>> {
    seq![
        encoded_uint(m.version as nat),
        encoded_list(hash_items(m.state_hashes)),
        encoded_list(hash_items(m.block_hashes)),
        encoded_bytes(m.state_root.bytes()),
        encoded_uint(m.block_number as nat),
        encoded_bytes(m.block_hash.bytes()),
    ]
}

/// The most chunks of either kind with which a manifest is written in full.
pub const MAX_MANIFEST_CHUNKS: usize = 10_000_000;

/// Decodes a manifest.
pub fn decode_manifest(raw: &[u8]) -> (r: Result<ManifestData, PacketDecodeError>)
    ensures
        r is Ok <==> decoded_manifest(raw@) is Some,
        r matches Ok(m) ==> decoded_manifest(raw@) == Some(m@),
{
    let count = item_count(raw)?;
    let (start, version): (usize, u64) = if count == 5 {
        (0, 1)
    } else {
        (1, u64_at(raw, 0)?)
    };
    let state_item = item_at(raw, start)?;
    let state_hashes = decode_hashes(state_item)?;
    let block_item = item_at(raw, start + 1)?;
    let block_hashes = decode_hashes(block_item)?;
    let state_root = hash_at(raw, start + 2)?;
    let block_number = u64_at(raw, start + 3)?;
    let block_hash = hash_at(raw, start + 4)?;
    Ok(ManifestData { version, state_hashes, block_hashes, state_root, block_number, block_hash })
}

/// Encodes a manifest.
pub fn encode_manifest(m: &ManifestData) -> (r: Vec<u8>)
    ensures
        m.state_hashes@.len() <= MAX_MANIFEST_CHUNKS && m.block_hashes@.len()
            <= MAX_MANIFEST_CHUNKS ==> r@ == encoded_list(manifest_items(m@)),
{
    let state = encode_hashes(&m.state_hashes);
    let block = encode_hashes(&m.block_hashes);
    let mut w = ListWriter::new(6);
    w.uint(m.version);
    w.raw(state.as_slice());
    w.raw(block.as_slice());
    w.hash(&m.state_root);
    w.uint(m.block_number);
    w.hash(&m.block_hash);
    proof {
        if m.state_hashes@.len() <= MAX_MANIFEST_CHUNKS && m.block_hashes@.len()
            <= MAX_MANIFEST_CHUNKS {
            crate::packets::lemma_hash_list_len(m.state_hashes@);
            crate::packets::lemma_hash_list_len(m.block_hashes@);
            assert(state@.len() <= 33 * MAX_MANIFEST_CHUNKS + 5);
            assert(block@.len() <= 33 * MAX_MANIFEST_CHUNKS + 5);
            assert(w.payload_len() <= 9 + state@.len() + block@.len() + 33 + 9 + 33);
            assert(w.items() =~= manifest_items(m@));
        }
    }
    w.finish()
}

} // verus!
