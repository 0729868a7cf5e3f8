//! Keccak-256, computed by the `keccak-hash` crate.

use vstd::prelude::*;
use crate::primitives::H256;

verus! {

/// The 32 bytes of the Keccak-256 digest of `data`.
pub uninterp spec fn keccak_bytes(data: Seq<u8>) -> Seq<u8>;

/// `keccak_hash::keccak`, handed out as its 32 bytes.
#[verifier::external_body]
fn raw_keccak(data: &[u8]) -> (r: [u8; 32])
    ensures
        r@ == keccak_bytes(data@),
{
    keccak_hash::keccak(data).0
}

/// The Keccak-256 digest of `data` as a hash.
pub open spec fn keccak_of(data: Seq<u8>) -> H256 {
    H256::pack(keccak_bytes(data))
}

/// The Keccak-256 digest of `data`.
pub fn keccak(data: &[u8]) -> (h: H256)
    ensures
        h == keccak_of(data@),
{
    let b = raw_keccak(data);
    H256::from_bytes(&b)
}

} // verus!
