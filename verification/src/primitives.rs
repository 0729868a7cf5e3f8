//! Plain values shared by the whole crate: identifiers, hashes, 256-bit
//! integers and the protocol's constants.

use vstd::prelude::*;

verus! {

/// Identifier of a connected peer.
pub type PeerId = usize;

/// Identifier of a packet kind on the wire.
pub type PacketId = u8;

/// Number of a block in the chain.
pub type BlockNumber = u64;

/// Milliseconds on a monotonic clock.
pub type Timestamp = u64;

pub const ETH_PROTOCOL_VERSION_63: u8 = 63;

pub const ETH_PROTOCOL_VERSION_62: u8 = 62;

pub const PAR_PROTOCOL_VERSION_1: u8 = 1;

/// Adds consensus messages.
pub const PAR_PROTOCOL_VERSION_2: u8 = 2;

/// Adds private transaction messages.
pub const PAR_PROTOCOL_VERSION_3: u8 = 3;

pub const MAX_BODIES_TO_SEND: usize = 256;

pub const MAX_HEADERS_TO_SEND: usize = 512;

pub const MAX_NODE_DATA_TO_SEND: usize = 1024;

pub const MAX_RECEIPTS_TO_SEND: usize = 1024;

pub const MAX_RECEIPTS_HEADERS_TO_SEND: usize = 256;

pub const MIN_PEERS_PROPAGATION: usize = 4;

pub const MAX_PEERS_PROPAGATION: usize = 128;

pub const MAX_PEER_LAG_PROPAGATION: BlockNumber = 20;

pub const MAX_NEW_HASHES: usize = 64;

pub const MAX_NEW_BLOCK_AGE: BlockNumber = 20;

pub const MAX_TRANSACTION_SIZE: usize = 307200;

/// Largest transactions packet in bytes.
pub const MAX_TRANSACTION_PACKET_SIZE: usize = 8388608;

/// Largest number of transactions announced to a peer that already has some.
pub const MAX_TRANSACTIONS_TO_PROPAGATE: usize = 64;

/// A snapshot is only worth restoring when it is this far ahead of us.
pub const SNAPSHOT_RESTORE_THRESHOLD: BlockNumber = 30000;

pub const SNAPSHOT_MIN_PEERS: usize = 3;

pub const MAX_SNAPSHOT_CHUNKS_DOWNLOAD_AHEAD: usize = 3;

pub const STATUS_PACKET: PacketId = 0x00;

pub const NEW_BLOCK_HASHES_PACKET: PacketId = 0x01;

pub const TRANSACTIONS_PACKET: PacketId = 0x02;

pub const GET_BLOCK_HEADERS_PACKET: PacketId = 0x03;

pub const BLOCK_HEADERS_PACKET: PacketId = 0x04;

pub const GET_BLOCK_BODIES_PACKET: PacketId = 0x05;

pub const BLOCK_BODIES_PACKET: PacketId = 0x06;

pub const NEW_BLOCK_PACKET: PacketId = 0x07;

pub const GET_NODE_DATA_PACKET: PacketId = 0x0d;

pub const NODE_DATA_PACKET: PacketId = 0x0e;

pub const GET_RECEIPTS_PACKET: PacketId = 0x0f;

pub const RECEIPTS_PACKET: PacketId = 0x10;

/// Packet ids below this one belong to the base protocol.
pub const ETH_PACKET_COUNT: PacketId = 0x11;

pub const GET_SNAPSHOT_MANIFEST_PACKET: PacketId = 0x11;

pub const SNAPSHOT_MANIFEST_PACKET: PacketId = 0x12;

pub const GET_SNAPSHOT_DATA_PACKET: PacketId = 0x13;

pub const SNAPSHOT_DATA_PACKET: PacketId = 0x14;

pub const CONSENSUS_DATA_PACKET: PacketId = 0x15;

pub const PRIVATE_TRANSACTION_PACKET: PacketId = 0x16;

pub const SIGNED_PRIVATE_TRANSACTION_PACKET: PacketId = 0x17;

pub const SNAPSHOT_SYNC_PACKET_COUNT: PacketId = 0x18;

pub const WAIT_PEERS_TIMEOUT: Timestamp = 5000;

pub const STATUS_TIMEOUT: Timestamp = 5000;

pub const HEADERS_TIMEOUT: Timestamp = 15000;

pub const BODIES_TIMEOUT: Timestamp = 20000;

pub const RECEIPTS_TIMEOUT: Timestamp = 10000;

pub const FORK_HEADER_TIMEOUT: Timestamp = 3000;

pub const SNAPSHOT_MANIFEST_TIMEOUT: Timestamp = 5000;

pub const SNAPSHOT_DATA_TIMEOUT: Timestamp = 120000;

/// A 32-byte hash, held as four big-endian words; `w0` holds the first
/// eight bytes.
#[derive(Clone, Copy, Debug, PartialEq, Eq, Structural, Hash)]
pub struct H256 {
    pub w0: u64,
    pub w1: u64,
    pub w2: u64,
    pub w3: u64,
}

/// The word whose big-endian bytes are `b[at..at + 8]`.
#[verifier::opaque]
pub open spec fn word_of(b: Seq<u8>, at: int) -> u64 {
    (b[at] as int * 0x0100_0000_0000_0000 + b[at + 1] as int * 0x0001_0000_0000_0000 + b[at
        + 2] as int * 0x0000_0100_0000_0000 + b[at + 3] as int * 0x0000_0001_0000_0000 + b[at
        + 4] as int * 0x0000_0000_0100_0000 + b[at + 5] as int * 0x0000_0000_0001_0000 + b[at
        + 6] as int * 0x0000_0000_0000_0100 + b[at + 7] as int) as u64
}

/// The eight big-endian bytes of a word.
#[verifier::opaque]
pub open spec fn bytes_of(w: u64) -> Seq<u8> {
    seq![
        (w / 0x0100_0000_0000_0000) as u8,
        (w / 0x0001_0000_0000_0000 % 256) as u8,
        (w / 0x0000_0100_0000_0000 % 256) as u8,
        (w / 0x0000_0001_0000_0000 % 256) as u8,
        (w / 0x0000_0000_0100_0000 % 256) as u8,
        (w / 0x0000_0000_0001_0000 % 256) as u8,
        (w / 0x0000_0000_0000_0100 % 256) as u8,
        (w % 256) as u8,
    ]
}

fn word_from(b: &[u8; 32], at: usize) -> (w: u64)
    requires
        at + 8 <= 32,
    ensures
        w == word_of(b@, at as int),
{
    reveal(word_of);
    let w: u64 = (b[at] as u64) * 0x0100_0000_0000_0000 + (b[at + 1] as u64)
        * 0x0001_0000_0000_0000 + (b[at + 2] as u64) * 0x0000_0100_0000_0000 + (b[at + 3] as u64)
        * 0x0000_0001_0000_0000 + (b[at + 4] as u64) * 0x0000_0000_0100_0000 + (b[at + 5] as u64)
        * 0x0000_0000_0001_0000 + (b[at + 6] as u64) * 0x0000_0000_0000_0100 + (b[at + 7] as u64);
    w
}

fn word_into(w: u64, out: &mut [u8; 32], at: usize)
    requires
        at + 8 <= 32,
    ensures
        forall|i: int| 0 <= i < 32 && !(at <= i < at + 8) ==> final(out)@[i] == old(out)@[i],
        forall|i: int| 0 <= i < 8 ==> final(out)@[at + i] == bytes_of(w)[i],
{
    reveal(bytes_of);
    out[at] = (w / 0x0100_0000_0000_0000) as u8;
    out[at + 1] = (w / 0x0001_0000_0000_0000 % 256) as u8;
    out[at + 2] = (w / 0x0000_0100_0000_0000 % 256) as u8;
    out[at + 3] = (w / 0x0000_0001_0000_0000 % 256) as u8;
    out[at + 4] = (w / 0x0000_0000_0100_0000 % 256) as u8;
    out[at + 5] = (w / 0x0000_0000_0001_0000 % 256) as u8;
    out[at + 6] = (w / 0x0000_0000_0000_0100 % 256) as u8;
    out[at + 7] = (w % 256) as u8;
}

/// A word has eight bytes.
pub proof fn lemma_bytes_of_len(w: u64)
    ensures
        bytes_of(w).len() == 8,
{
    reveal(bytes_of);
}

impl H256 {
    /// The hash made of the 32 given bytes.
    pub open spec fn pack(b: Seq<u8>) -> H256 {
        H256 { w0: word_of(b, 0), w1: word_of(b, 8), w2: word_of(b, 16), w3: word_of(b, 24) }
    }

    /// The 32 bytes of the hash.
    pub open spec fn bytes(self) -> Seq<u8> {
        bytes_of(self.w0) + bytes_of(self.w1) + bytes_of(self.w2) + bytes_of(self.w3)
    }

    pub open spec fn spec_zero() -> H256 {
        H256 { w0: 0, w1: 0, w2: 0, w3: 0 }
    }

    /// The hash of 32 zero bytes.
    pub fn zero() -> (h: H256)
        ensures
            h == Self::spec_zero(),
    {
        H256 { w0: 0, w1: 0, w2: 0, w3: 0 }
    }

    pub fn from_bytes(b: &[u8; 32]) -> (h: H256)
        ensures
            h == Self::pack(b@),
    {
        H256 {
            w0: word_from(b, 0),
            w1: word_from(b, 8),
            w2: word_from(b, 16),
            w3: word_from(b, 24),
        }
    }

    pub fn to_bytes(&self) -> (b: [u8; 32])
        ensures
            b@ == self.bytes(),
    {
        let mut b: [u8; 32] = [0u8;32];
        word_into(self.w0, &mut b, 0);
        word_into(self.w1, &mut b, 8);
        word_into(self.w2, &mut b, 16);
        word_into(self.w3, &mut b, 24);
        proof {
            lemma_bytes_of_len(self.w0);
            lemma_bytes_of_len(self.w1);
            lemma_bytes_of_len(self.w2);
            lemma_bytes_of_len(self.w3);
        }
        assert(b@ =~= self.bytes());
        b
    }
}

/// An unsigned 256-bit integer, held as four words; `l0` is the least
/// significant.
#[derive(Clone, Copy, Debug, PartialEq, Eq, Structural, Hash)]
pub struct U256 {
    pub l0: u64,
    pub l1: u64,
    pub l2: u64,
    pub l3: u64,
}

/// A word on top of a smaller number orders it: the higher part decides.
proof fn lemma_higher_decides(xl: int, xh: int, yl: int, yh: int)
    requires
        0 <= xl < 0x1_0000_0000_0000_0000,
        0 <= yl < 0x1_0000_0000_0000_0000,
        xh > yh,
    ensures
        xl + 0x1_0000_0000_0000_0000 * xh > yl + 0x1_0000_0000_0000_0000 * yh,
{
}

impl U256 {
    /// The number that the three upper words stand for, in units of the
    /// lowest word's range.
    pub open spec fn upper(self) -> int {
        self.l1 as int + 0x1_0000_0000_0000_0000 * (self.l2 as int + 0x1_0000_0000_0000_0000
            * (self.l3 as int))
    }

    /// The number that the four words stand for.
    pub open spec fn value(self) -> nat {
        (self.l0 as int + 0x1_0000_0000_0000_0000 * self.upper()) as nat
    }

    pub fn zero() -> (r: U256)
        ensures
            r.value() == 0,
    {
        U256 { l0: 0, l1: 0, l2: 0, l3: 0 }
    }

    pub fn from_u64(v: u64) -> (r: U256)
        ensures
            r.value() == v,
    {
        U256 { l0: v, l1: 0, l2: 0, l3: 0 }
    }

    /// Whether `self` is greater than `other`.
    pub fn gt(&self, other: &U256) -> (r: bool)
        ensures
            r == (self.value() > other.value()),
    {
        proof {
            let a2: int = self.l2 as int + 0x1_0000_0000_0000_0000 * (self.l3 as int);
            let b2: int = other.l2 as int + 0x1_0000_0000_0000_0000 * (other.l3 as int);
            if self.l3 > other.l3 {
                lemma_higher_decides(self.l2 as int, self.l3 as int, other.l2 as int,
                    other.l3 as int);
            }
            if self.l3 < other.l3 {
                lemma_higher_decides(other.l2 as int, other.l3 as int, self.l2 as int,
                    self.l3 as int);
            }
            if a2 > b2 {
                lemma_higher_decides(self.l1 as int, a2, other.l1 as int, b2);
            }
            if a2 < b2 {
                lemma_higher_decides(other.l1 as int, b2, self.l1 as int, a2);
            }
            if self.upper() > other.upper() {
                lemma_higher_decides(self.l0 as int, self.upper(), other.l0 as int, other.upper());
            }
            if self.upper() < other.upper() {
                lemma_higher_decides(other.l0 as int, other.upper(), self.l0 as int, self.upper());
            }
        }
        if self.l3 != other.l3 {
            self.l3 > other.l3
        } else if self.l2 != other.l2 {
            self.l2 > other.l2
        } else if self.l1 != other.l1 {
            self.l1 > other.l1
        } else {
            self.l0 > other.l0
        }
    }
}

} // verus!
