//! The binary codec: recursive length-prefixed tuples.  Encoding is stated
//! exactly; decoding is done by the `rlp` crate and its results are named.

use vstd::prelude::*;
use crate::primitives::{H256, U256};

verus! {

#[verifier::external_type_specification]
#[verifier::external_body]
pub struct ExDecoderError(rlp::DecoderError);

#[verifier::external_type_specification]
#[verifier::external_body]
pub struct ExRlpStream(rlp::RlpStream);

/// A packet, or a part of one, could not be decoded.
#[derive(Clone, Copy, Debug, PartialEq, Eq, Structural)]
pub enum PacketDecodeError {
    Malformed,
}

/// The shortest big-endian form of a number; no bytes for zero.
pub open spec fn be_bytes(n: nat) -> Seq<u8>
    decreases n,
{
    if n == 0 {
        Seq::empty()
    } else {
        be_bytes(n / 256).push((n % 256) as u8)
    }
}

/// The prefix of an item whose payload has `len` bytes; `base` is 0x80 for a
/// byte string and 0xc0 for a list.
pub open spec fn header(base: int, len: nat) -> Seq<u8> {
    if len <= 55 {
        seq![(base + len) as u8]
    } else {
        seq![(base + 55 + be_bytes(len).len()) as u8] + be_bytes(len)
    }
}

/// The encoding of a byte string.
pub open spec fn encoded_bytes(b: Seq<u8>) -> Seq<u8> {
    if b.len() == 1 && b[0] < 0x80 {
        b
    } else {
        header(0x80, b.len()) + b
    }
}

/// The encoding of an unsigned number.
pub open spec fn encoded_uint(n: nat) -> Seq<u8> {
    encoded_bytes(be_bytes(n))
}

/// The items one after the other.
pub open spec fn concat(items: Seq<Seq<u8>>) -> Seq<u8>
    decreases items.len(),
{
    if items.len() == 0 {
        Seq::empty()
    } else {
        concat(items.drop_last()) + items.last()
    }
}

/// The encoding of a list whose items are already encoded.
pub open spec fn encoded_list(items: Seq<Seq<u8>>) -> Seq<u8> {
    header(0xc0, concat(items).len()) + concat(items)
}

/// The largest payload whose length prefix the encoder writes in full.
pub open spec fn max_payload() -> nat {
    0xffff_ffff
}

/// The encoded items appended to a list stream so far.
pub uninterp spec fn stream_items(s: rlp::RlpStream) -> Seq<Seq<u8>>;

/// The number of items that a list stream was opened for.
pub uninterp spec fn stream_capacity(s: rlp::RlpStream) -> nat;

/// `RlpStream::new_list`: a stream that expects `len` items and holds none.
#[verifier::external_body]
fn stream_new_list(len: usize) -> (s: rlp::RlpStream)
    ensures
        stream_items(s) == Seq::<Seq<u8>>::empty(),
        stream_capacity(s) == len,
{
    rlp::RlpStream::new_list(len)
}

/// `RlpStream::append` of a `u64`: one more item, the number's encoding.
/// The stream must still expect an item: in one that is full the bytes would
/// come to stand behind the list.  The same holds of the other appends.
#[verifier::external_body]
fn stream_append_u64(s: &mut rlp::RlpStream, v: u64)
    requires
        stream_items(*old(s)).len() < stream_capacity(*old(s)),
    ensures
        stream_items(*final(s)) == stream_items(*old(s)).push(encoded_uint(v as nat)),
        stream_capacity(*final(s)) == stream_capacity(*old(s)),
{
    s.append(&v);
}

/// `RlpStream::append` of a 256-bit number: one more item, the number's
/// encoding.
#[verifier::external_body]
fn stream_append_u256(s: &mut rlp::RlpStream, v: &U256)
    requires
        stream_items(*old(s)).len() < stream_capacity(*old(s)),
    ensures
        stream_items(*final(s)) == stream_items(*old(s)).push(encoded_uint(v.value())),
        stream_capacity(*final(s)) == stream_capacity(*old(s)),
{
    s.append(&ethereum_types::U256([v.l0, v.l1, v.l2, v.l3]));
}

/// `RlpStream::append` of a 32-byte hash: one more item, the encoding of
/// the 32 bytes as a byte string.
#[verifier::external_body]
fn stream_append_hash(s: &mut rlp::RlpStream, bytes: &[u8; 32])
    requires
        stream_items(*old(s)).len() < stream_capacity(*old(s)),
    ensures
        stream_items(*final(s)) == stream_items(*old(s)).push(encoded_bytes(bytes@)),
        stream_capacity(*final(s)) == stream_capacity(*old(s)),
{
    s.append(&ethereum_types::H256(*bytes));
}

/// `RlpStream::append` of a byte string: one more item, its encoding.  A
/// string longer than `max_payload()` would get a truncated length.
#[verifier::external_body]
fn stream_append_bytes(s: &mut rlp::RlpStream, bytes: &[u8])
    requires
        stream_items(*old(s)).len() < stream_capacity(*old(s)),
        bytes@.len() <= max_payload(),
    ensures
        stream_items(*final(s)) == stream_items(*old(s)).push(encoded_bytes(bytes@)),
        stream_capacity(*final(s)) == stream_capacity(*old(s)),
{
    s.append(&bytes);
}

/// `RlpStream::append_raw` with an item count of one: the bytes are taken
/// as they are for one more item.
#[verifier::external_body]
fn stream_append_raw(s: &mut rlp::RlpStream, raw: &[u8])
    requires
        stream_items(*old(s)).len() < stream_capacity(*old(s)),
    ensures
        stream_items(*final(s)) == stream_items(*old(s)).push(raw@),
        stream_capacity(*final(s)) == stream_capacity(*old(s)),
{
    s.append_raw(raw, 1);
}

/// `RlpStream::out`: the encoding of the list of the appended items.  The
/// stream must hold as many items as it was opened for, else the crate
/// panics; a payload longer than `max_payload()` gets a truncated length.
#[verifier::external_body]
fn stream_out(s: rlp::RlpStream) -> (r: Vec<u8>)
    requires
        stream_items(s).len() == stream_capacity(s),
    ensures
        concat(stream_items(s)).len() <= max_payload() ==> r@ == encoded_list(stream_items(s)),
{
    s.out()
}

/// 256 to the power of `k`.
pub open spec fn pow256(k: nat) -> nat
    decreases k,
{
    if k == 0 {
        1
    } else {
        256 * pow256((k - 1) as nat)
    }
}

/// A number below 256 to the `k` has at most `k` bytes.
pub proof fn lemma_be_bytes_len(n: nat, k: nat)
    requires
        n < pow256(k),
    ensures
        be_bytes(n).len() <= k,
    decreases k,
{
    if n != 0 {
        if k == 0 {
            assert(pow256(0) == 1);
        } else {
            assert(pow256(k) == 256 * pow256((k - 1) as nat));
            lemma_be_bytes_len(n / 256, (k - 1) as nat);
        }
    }
}

/// The encoding of a 64-bit number has at most nine bytes.
pub proof fn lemma_uint64_len(v: u64)
    ensures
        1 <= encoded_uint(v as nat).len() <= 9,
{
    assert(pow256(8) == 0x1_0000_0000_0000_0000) by {
        reveal_with_fuel(pow256, 9);
    }
    lemma_be_bytes_len(v as nat, 8);
}

/// The encoding of a 256-bit number has at most 33 bytes.
pub proof fn lemma_uint256_len(v: U256)
    ensures
        1 <= encoded_uint(v.value()).len() <= 33,
{
    assert(pow256(8) == 0x1_0000_0000_0000_0000) by {
        reveal_with_fuel(pow256, 9);
    }
    assert(pow256(16) == 0x1_0000_0000_0000_0000 * pow256(8)) by {
        reveal_with_fuel(pow256, 9);
    }
    assert(pow256(24) == 0x1_0000_0000_0000_0000 * pow256(16)) by {
        reveal_with_fuel(pow256, 9);
    }
    assert(pow256(32) == 0x1_0000_0000_0000_0000 * pow256(24)) by {
        reveal_with_fuel(pow256, 9);
    }
    assert(v.upper() < pow256(24));
    assert(v.value() < pow256(32));
    lemma_be_bytes_len(v.value(), 32);
}

/// The encoding of a hash has 33 bytes.
pub proof fn lemma_hash_len(h: H256)
    ensures
        encoded_bytes(h.bytes()).len() == 33,
{
    crate::primitives::lemma_bytes_of_len(h.w0);
    crate::primitives::lemma_bytes_of_len(h.w1);
    crate::primitives::lemma_bytes_of_len(h.w2);
    crate::primitives::lemma_bytes_of_len(h.w3);
}

/// The prefix of a payload that the encoder writes in full has at most
/// five bytes.
pub proof fn lemma_header_len(base: int, len: nat)
    requires
        len <= max_payload(),
    ensures
        1 <= header(base, len).len() <= 5,
{
    assert(pow256(4) == 0x1_0000_0000) by {
        reveal_with_fuel(pow256, 5);
    }
    lemma_be_bytes_len(len, 4);
}

/// Appending an item appends its bytes to the concatenation.
pub proof fn lemma_concat_push(items: Seq<Seq<u8>>, item: Seq<u8>)
    ensures
        concat(items.push(item)) == concat(items) + item,
        concat(items.push(item)).len() == concat(items).len() + item.len(),
{
    assert(items.push(item).drop_last() =~= items);
}

/// Writes a list item by item.
pub struct ListWriter {
    stream: rlp::RlpStream,
}

impl ListWriter {
    /// The encoded items written so far.
    pub closed spec fn items(&self) -> Seq<Seq<u8>> {
        stream_items(self.stream)
    }

    /// The number of items that the list is to have.
    pub closed spec fn capacity(&self) -> nat {
        stream_capacity(self.stream)
    }

    /// The number of bytes of the items written so far.
    pub open spec fn payload_len(&self) -> nat {
        concat(self.items()).len()
    }

    /// A writer for a list of `len` items.
    pub fn new(len: usize) -> (w: ListWriter)
        ensures
            w.items() == Seq::<Seq<u8>>::empty(),
            w.capacity() == len,
            w.payload_len() == 0,
    {
        ListWriter { stream: stream_new_list(len) }
    }

    /// Writes a number.
    pub fn uint(&mut self, v: u64)
        requires
            old(self).items().len() < old(self).capacity(),
        ensures
            final(self).items() == old(self).items().push(encoded_uint(v as nat)),
            final(self).capacity() == old(self).capacity(),
            final(self).payload_len() <= old(self).payload_len() + 9,
    {
        proof {
            lemma_uint64_len(v);
            lemma_concat_push(self.items(), encoded_uint(v as nat));
        }
        stream_append_u64(&mut self.stream, v);
    }

    /// Writes a 256-bit number.
    pub fn uint256(&mut self, v: &U256)
        requires
            old(self).items().len() < old(self).capacity(),
        ensures
            final(self).items() == old(self).items().push(encoded_uint(v.value())),
            final(self).capacity() == old(self).capacity(),
            final(self).payload_len() <= old(self).payload_len() + 33,
    {
        proof {
            lemma_uint256_len(*v);
            lemma_concat_push(self.items(), encoded_uint(v.value()));
        }
        stream_append_u256(&mut self.stream, v);
    }

    /// Writes a hash.
    pub fn hash(&mut self, h: &H256)
        requires
            old(self).items().len() < old(self).capacity(),
        ensures
            final(self).items() == old(self).items().push(encoded_bytes(h.bytes())),
            final(self).capacity() == old(self).capacity(),
            final(self).payload_len() == old(self).payload_len() + 33,
    {
        proof {
            lemma_hash_len(*h);
            lemma_concat_push(self.items(), encoded_bytes(h.bytes()));
        }
        let b = h.to_bytes();
        stream_append_hash(&mut self.stream, &b);
    }

    /// Writes a byte string.
    pub fn bytes(&mut self, b: &[u8])
        requires
            old(self).items().len() < old(self).capacity(),
            b@.len() <= max_payload(),
        ensures
            final(self).items() == old(self).items().push(encoded_bytes(b@)),
            final(self).capacity() == old(self).capacity(),
            final(self).payload_len() <= old(self).payload_len() + b@.len() + 5,
    {
        proof {
            lemma_header_len(0x80, b@.len());
            lemma_concat_push(self.items(), encoded_bytes(b@));
        }
        stream_append_bytes(&mut self.stream, b);
    }

    /// Writes an item that is already encoded.
    pub fn raw(&mut self, item: &[u8])
        requires
            old(self).items().len() < old(self).capacity(),
        ensures
            final(self).items() == old(self).items().push(item@),
            final(self).capacity() == old(self).capacity(),
            final(self).payload_len() == old(self).payload_len() + item@.len(),
    {
        proof {
            lemma_concat_push(self.items(), item@);
        }
        stream_append_raw(&mut self.stream, item);
    }

    /// The encoding of the list, once all its items are written.
    pub fn finish(self) -> (r: Vec<u8>)
        requires
            self.items().len() == self.capacity(),
        ensures
            self.payload_len() <= max_payload() ==> r@ == encoded_list(self.items()),
    {
        stream_out(self.stream)
    }
}

/// The number of items of the list that `data` encodes, where it encodes one.
pub uninterp spec fn decoded_item_count(data: Seq<u8>) -> Option<nat>;

/// The encoded item at `index` of the list that `data` encodes.
pub uninterp spec fn decoded_item_at(data: Seq<u8>, index: nat) -> Option<Seq<u8>>;

/// The byte that an item encodes as a number.
pub uninterp spec fn decoded_u8(item: Seq<u8>) -> Option<u8>;

/// The number that an item encodes.
pub uninterp spec fn decoded_u64(item: Seq<u8>) -> Option<u64>;

/// The 256-bit number that an item encodes.
pub uninterp spec fn decoded_u256(item: Seq<u8>) -> Option<U256>;

/// The 32 bytes that an item encodes.
pub uninterp spec fn decoded_hash_bytes(item: Seq<u8>) -> Option<Seq<u8>>;

/// The byte string that an item encodes.
pub uninterp spec fn decoded_bytes(item: Seq<u8>) -> Option<Seq<u8>>;

/// The truth value that an item encodes.
pub uninterp spec fn decoded_bool(item: Seq<u8>) -> Option<bool>;

/// The number of bytes of the string that an item holds; zero for an item
/// that holds none.
pub uninterp spec fn decoded_size(item: Seq<u8>) -> nat;

/// `Rlp::item_count`.
#[verifier::external_body]
fn raw_item_count(data: &[u8]) -> (r: Result<usize, rlp::DecoderError>)
    ensures
        r is Ok <==> decoded_item_count(data@) is Some,
        r matches Ok(n) ==> decoded_item_count(data@) == Some(n as nat),
{
    rlp::Rlp::new(data).item_count()
}

/// `Rlp::at` followed by `Rlp::as_raw`: the bytes of one item of a list,
/// which are a part of `data`.  Every item has at least one byte, so there
/// are fewer items than bytes.
#[verifier::external_body]
fn raw_item_at<'a>(data: &'a [u8], index: usize) -> (r: Result<&'a [u8], rlp::DecoderError>)
    ensures
        r is Ok <==> decoded_item_at(data@, index as nat) is Some,
        r matches Ok(item) ==> decoded_item_at(data@, index as nat) == Some(item@)
            && item@.len() <= data@.len() && index < data@.len(),
{
    rlp::Rlp::new(data).at(index).map(|item| item.as_raw())
}

/// `Rlp::as_val` for `u8`.
#[verifier::external_body]
fn raw_u8(item: &[u8]) -> (r: Result<u8, rlp::DecoderError>)
    ensures
        r is Ok <==> decoded_u8(item@) is Some,
        r matches Ok(v) ==> decoded_u8(item@) == Some(v),
{
    rlp::Rlp::new(item).as_val::<u8>()
}

/// `Rlp::as_val` for `u64`.
#[verifier::external_body]
fn raw_u64(item: &[u8]) -> (r: Result<u64, rlp::DecoderError>)
    ensures
        r is Ok <==> decoded_u64(item@) is Some,
        r matches Ok(v) ==> decoded_u64(item@) == Some(v),
{
    rlp::Rlp::new(item).as_val::<u64>()
}

/// `Rlp::as_val` for a 256-bit number, handed out word by word.
#[verifier::external_body]
fn raw_u256(item: &[u8]) -> (r: Result<U256, rlp::DecoderError>)
    ensures
        r is Ok <==> decoded_u256(item@) is Some,
        r matches Ok(v) ==> decoded_u256(item@) == Some(v),
{
    rlp::Rlp::new(item).as_val::<ethereum_types::U256>().map(
        |v| U256 { l0: v.0[0], l1: v.0[1], l2: v.0[2], l3: v.0[3] },
    )
}

/// `Rlp::as_val` for a 32-byte hash, handed out as its bytes.
#[verifier::external_body]
fn raw_hash(item: &[u8]) -> (r: Result<[u8; 32], rlp::DecoderError>)
    ensures
        r is Ok <==> decoded_hash_bytes(item@) is Some,
        r matches Ok(b) ==> decoded_hash_bytes(item@) == Some(b@),
{
    rlp::Rlp::new(item).as_val::<ethereum_types::H256>().map(|h| h.0)
}

/// `Rlp::as_val` for a byte string.
#[verifier::external_body]
fn raw_bytes(item: &[u8]) -> (r: Result<Vec<u8>, rlp::DecoderError>)
    ensures
        r is Ok <==> decoded_bytes(item@) is Some,
        r matches Ok(b) ==> decoded_bytes(item@) == Some(b@),
{
    rlp::Rlp::new(item).as_val::<Vec<u8>>()
}

/// `Rlp::as_val` for `bool`.
#[verifier::external_body]
fn raw_bool(item: &[u8]) -> (r: Result<bool, rlp::DecoderError>)
    ensures
        r is Ok <==> decoded_bool(item@) is Some,
        r matches Ok(v) ==> decoded_bool(item@) == Some(v),
{
    rlp::Rlp::new(item).as_val::<bool>()
}

/// `Rlp::size`.
#[verifier::external_body]
fn raw_size(item: &[u8]) -> (r: usize)
    ensures
        r == decoded_size(item@),
{
    rlp::Rlp::new(item).size()
}

/// The hash that an item encodes.
pub open spec fn decoded_hash(item: Seq<u8>) -> Option<H256> {
    match decoded_hash_bytes(item) {
        Some(b) => Some(H256::pack(b)),
        None => None,
    }
}

/// The item at `index` of a list, decoded by `f`.
pub open spec fn decoded_at<T>(data: Seq<u8>, index: nat, f: spec_fn(Seq<u8>) -> Option<T>)
    -> Option<T> {
    match decoded_item_at(data, index) {
        Some(item) => f(item),
        None => None,
    }
}

pub open spec fn decoded_u8_at(data: Seq<u8>, index: nat) -> Option<u8> {
    decoded_at(data, index, |item: Seq<u8>| decoded_u8(item))
}

pub open spec fn decoded_u64_at(data: Seq<u8>, index: nat) -> Option<u64> {
    decoded_at(data, index, |item: Seq<u8>| decoded_u64(item))
}

pub open spec fn decoded_u256_at(data: Seq<u8>, index: nat) -> Option<U256> {
    decoded_at(data, index, |item: Seq<u8>| decoded_u256(item))
}

pub open spec fn decoded_hash_at(data: Seq<u8>, index: nat) -> Option<H256> {
    decoded_at(data, index, |item: Seq<u8>| decoded_hash(item))
}

pub open spec fn decoded_bytes_at(data: Seq<u8>, index: nat) -> Option<Seq<u8>> {
    decoded_at(data, index, |item: Seq<u8>| decoded_bytes(item))
}

pub open spec fn decoded_bool_at(data: Seq<u8>, index: nat) -> Option<bool> {
    decoded_at(data, index, |item: Seq<u8>| decoded_bool(item))
}



/// The number of items of an encoded list.
pub fn item_count(data: &[u8]) -> (r: Result<usize, PacketDecodeError>)
    ensures
        r is Ok <==> decoded_item_count(data@) is Some,
        r matches Ok(n) ==> decoded_item_count(data@) == Some(n as nat),
{
    match raw_item_count(data) {
        Ok(n) => Ok(n),
        Err(_) => Err(PacketDecodeError::Malformed),
    }
}

/// The encoded item at `index` of an encoded list.
pub fn item_at<'a>(data: &'a [u8], index: usize) -> (r: Result<&'a [u8], PacketDecodeError>)
    ensures
        r is Ok <==> decoded_item_at(data@, index as nat) is Some,
        r matches Ok(item) ==> decoded_item_at(data@, index as nat) == Some(item@)
            && item@.len() <= data@.len() && index < data@.len(),
{
    match raw_item_at(data, index) {
        Ok(item) => Ok(item),
        Err(_) => Err(PacketDecodeError::Malformed),
    }
}

pub fn u8_at(data: &[u8], index: usize) -> (r: Result<u8, PacketDecodeError>)
    ensures
        r is Ok <==> decoded_u8_at(data@, index as nat) is Some,
        r matches Ok(v) ==> decoded_u8_at(data@, index as nat) == Some(v),
{
    match raw_item_at(data, index) {
        Ok(item) => match raw_u8(item) {
            Ok(v) => Ok(v),
            Err(_) => Err(PacketDecodeError::Malformed),
        },
        Err(_) => Err(PacketDecodeError::Malformed),
    }
}

pub fn u64_at(data: &[u8], index: usize) -> (r: Result<u64, PacketDecodeError>)
    ensures
        r is Ok <==> decoded_u64_at(data@, index as nat) is Some,
        r matches Ok(v) ==> decoded_u64_at(data@, index as nat) == Some(v),
{
    match raw_item_at(data, index) {
        Ok(item) => match raw_u64(item) {
            Ok(v) => Ok(v),
            Err(_) => Err(PacketDecodeError::Malformed),
        },
        Err(_) => Err(PacketDecodeError::Malformed),
    }
}

pub fn u256_at(data: &[u8], index: usize) -> (r: Result<U256, PacketDecodeError>)
    ensures
        r is Ok <==> decoded_u256_at(data@, index as nat) is Some,
        r matches Ok(v) ==> decoded_u256_at(data@, index as nat) == Some(v),
{
    match raw_item_at(data, index) {
        Ok(item) => match raw_u256(item) {
            Ok(v) => Ok(v),
            Err(_) => Err(PacketDecodeError::Malformed),
        },
        Err(_) => Err(PacketDecodeError::Malformed),
    }
}

/// The hash that one encoded item holds.
pub fn hash_of_item(item: &[u8]) -> (r: Result<H256, PacketDecodeError>)
    ensures
        r is Ok <==> decoded_hash(item@) is Some,
        r matches Ok(v) ==> decoded_hash(item@) == Some(v),
{
    match raw_hash(item) {
        Ok(b) => Ok(H256::from_bytes(&b)),
        Err(_) => Err(PacketDecodeError::Malformed),
    }
}

pub fn hash_at(data: &[u8], index: usize) -> (r: Result<H256, PacketDecodeError>)
    ensures
        r is Ok <==> decoded_hash_at(data@, index as nat) is Some,
        r matches Ok(v) ==> decoded_hash_at(data@, index as nat) == Some(v),
{
    match raw_item_at(data, index) {
        Ok(item) => hash_of_item(item),
        Err(_) => Err(PacketDecodeError::Malformed),
    }
}

pub fn bytes_at(data: &[u8], index: usize) -> (r: Result<Vec<u8>, PacketDecodeError>)
    ensures
        r is Ok <==> decoded_bytes_at(data@, index as nat) is Some,
        r matches Ok(v) ==> decoded_bytes_at(data@, index as nat) == Some(v@),
{
    match raw_item_at(data, index) {
        Ok(item) => match raw_bytes(item) {
            Ok(v) => Ok(v),
            Err(_) => Err(PacketDecodeError::Malformed),
        },
        Err(_) => Err(PacketDecodeError::Malformed),
    }
}

pub fn bool_at(data: &[u8], index: usize) -> (r: Result<bool, PacketDecodeError>)
    ensures
        r is Ok <==> decoded_bool_at(data@, index as nat) is Some,
        r matches Ok(v) ==> decoded_bool_at(data@, index as nat) == Some(v),
{
    match raw_item_at(data, index) {
        Ok(item) => match raw_bool(item) {
            Ok(v) => Ok(v),
            Err(_) => Err(PacketDecodeError::Malformed),
        },
        Err(_) => Err(PacketDecodeError::Malformed),
    }
}

/// The number of bytes of the string that an item holds; zero for an item
/// that holds none.
pub fn size_of_item(item: &[u8]) -> (r: usize)
    ensures
        r == decoded_size(item@),
{
    raw_size(item)
}

} // verus!
