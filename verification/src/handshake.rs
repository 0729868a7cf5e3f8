//! Greeting peers: the status message that is sent to a new peer, and what
//! is made of the one that comes back.

use vstd::prelude::*;
use crate::action::Action;
use crate::chain_sync::{lemma_prefix_trans, progresses, ChainSync};
use crate::codec::{
    decoded_hash_at,
    decoded_u256_at,
    decoded_u64_at,
    decoded_u8_at,
    encoded_list,
    hash_at,
    u256_at,
    u64_at,
    u8_at,
    PacketDecodeError,
};
use crate::env::{BlockDownloader, ChainInfo, SyncIo};
use crate::hash_list::HashList;
use crate::hashing::{keccak, keccak_of};
use crate::manifest::{encode_manifest, manifest_items, ManifestView, MAX_MANIFEST_CHUNKS};
use crate::packets::{
    encode_status,
    header_by_number_items,
    status_items,
    status_snapshot_items,
};
use crate::peer::{ForkConfirmation, PeerAsking, PeerInfo};
use crate::peer_map::{has_id, lemma_position_unique, position};
use crate::primitives::{BlockNumber, H256, PeerId, Timestamp, U256};
use crate::primitives::{
    ETH_PROTOCOL_VERSION_62,
    ETH_PROTOCOL_VERSION_63,
    GET_BLOCK_HEADERS_PACKET,
    PAR_PROTOCOL_VERSION_1,
    PAR_PROTOCOL_VERSION_2,
    PAR_PROTOCOL_VERSION_3,
    STATUS_PACKET,
};
use crate::requester::request_fork_header_by_number;

verus! {

/// What a peer tells of itself when it is greeted.
#[derive(Clone, Copy, Debug, PartialEq, Eq, Structural)]
pub struct StatusMessage {
    pub protocol_version: u8,
    pub network_id: u64,
    pub difficulty: U256,
    pub latest_hash: H256,
    pub genesis: H256,
    pub snapshot_hash: Option<H256>,
    pub snapshot_number: Option<BlockNumber>,
}

/// What became of a peer that told its status.
#[derive(Clone, Copy, Debug, PartialEq, Eq, Structural)]
pub enum Admission {
    /// The session is gone: nothing was done.
    Expired,
    /// The peer is registered already: nothing was done.
    Known,
    /// The peer is on another chain or network or speaks an unknown
    /// version: it is not talked to again.
    Rejected,
    /// The peer is registered and was asked for the header of the fork
    /// block.
    AwaitFork,
    /// The peer is registered and can be given work.
    Ready,
}

/// The status that `data` encodes.  The last two items are read only with
/// the snapshot-capable protocol.
pub open spec fn decoded_status(data: Seq<u8>, warp: bool) -> Option<StatusMessage> {
    if decoded_u8_at(data, 0) is None || decoded_u64_at(data, 1) is None || decoded_u256_at(
        data,
        2,
    ) is None || decoded_hash_at(data, 3) is None || decoded_hash_at(data, 4) is None || (warp && (
    decoded_hash_at(data, 5) is None || decoded_u64_at(data, 6) is None)) {
        None
    } else {
        Some(
            StatusMessage {
                protocol_version: decoded_u8_at(data, 0)->0,
                network_id: decoded_u64_at(data, 1)->0,
                difficulty: decoded_u256_at(data, 2)->0,
                latest_hash: decoded_hash_at(data, 3)->0,
                genesis: decoded_hash_at(data, 4)->0,
                snapshot_hash: if warp {
                    decoded_hash_at(data, 5)
                } else {
                    None
                },
                snapshot_number: if warp {
                    decoded_u64_at(data, 6)
                } else {
                    None
                },
            },
        )
    }
}

/// Decodes a status message.
pub fn decode_status(data: &[u8], warp: bool) -> (r: Result<StatusMessage, PacketDecodeError>)
    ensures
        r is Ok <==> decoded_status(data@, warp) is Some,
        r matches Ok(m) ==> decoded_status(data@, warp) == Some(m),
{
    let protocol_version = u8_at(data, 0)?;
    let network_id = u64_at(data, 1)?;
    let difficulty = u256_at(data, 2)?;
    let latest_hash = hash_at(data, 3)?;
    let genesis = hash_at(data, 4)?;
    let snapshot_hash = if warp {
        Some(hash_at(data, 5)?)
    } else {
        None
    };
    let snapshot_number = if warp {
        Some(u64_at(data, 6)?)
    } else {
        None
    };
    Ok(
        StatusMessage {
            protocol_version,
            network_id,
            difficulty,
            latest_hash,
            genesis,
            snapshot_hash,
            snapshot_number,
        },
    )
}

/// Whether a protocol version is spoken: versions one to three of the
/// snapshot-capable protocol, 62 and 63 of the base protocol.
pub open spec fn spec_supported_version(warp: bool, version: u8) -> bool {
    if warp {
        version == PAR_PROTOCOL_VERSION_1 || version == PAR_PROTOCOL_VERSION_2 || version
            == PAR_PROTOCOL_VERSION_3
    } else {
        version == ETH_PROTOCOL_VERSION_63 || version == ETH_PROTOCOL_VERSION_62
    }
}

pub fn supported_version(warp: bool, version: u8) -> (r: bool)
    ensures
        r == spec_supported_version(warp, version),
{
    if warp {
        version == PAR_PROTOCOL_VERSION_1 || version == PAR_PROTOCOL_VERSION_2 || version
            == PAR_PROTOCOL_VERSION_3
    } else {
        version == ETH_PROTOCOL_VERSION_63 || version == ETH_PROTOCOL_VERSION_62
    }
}

/// Whether a peer is on our chain and network and speaks a known version.
pub open spec fn acceptable(msg: StatusMessage, warp: bool, genesis: H256, network_id: u64)
    -> bool {
    msg.genesis == genesis && msg.network_id == network_id && spec_supported_version(
        warp,
        msg.protocol_version,
    )
}

/// What becomes of a peer that told its status.
pub open spec fn spec_admission(expired: bool, registered: bool, acceptable: bool, fork: bool)
    -> Admission {
    if expired {
        Admission::Expired
    } else if registered {
        Admission::Known
    } else if !acceptable {
        Admission::Rejected
    } else if fork {
        Admission::AwaitFork
    } else {
        Admission::Ready
    }
}

/// Whether `p` is the record of a peer that has just told the given status.
pub open spec fn is_new_record(p: PeerInfo, msg: StatusMessage, fork: bool, now: Timestamp)
    -> bool {
    &&& p.protocol_version == msg.protocol_version
    &&& p.network_id == msg.network_id
    &&& p.difficulty == Some(msg.difficulty)
    &&& p.latest_hash == msg.latest_hash
    &&& p.genesis == msg.genesis
    &&& p.asking == if fork {
        PeerAsking::ForkHeader
    } else {
        PeerAsking::Nothing
    }
    &&& p.asking_blocks@.len() == 0
    &&& p.asking_hash is None
    &&& p.asking_snapshot_data is None
    &&& p.ask_time == now
    &&& p.last_sent_transactions.items@.len() == 0
    &&& !p.expired
    &&& p.confirmation == if fork {
        ForkConfirmation::Unconfirmed
    } else {
        ForkConfirmation::Confirmed
    }
    &&& p.snapshot_hash == msg.snapshot_hash
    &&& p.snapshot_number == msg.snapshot_number
    &&& p.block_set is None
}

/// The payload of the status message for a peer: five items, and two more
/// where a snapshot is told of.
pub open spec fn status_payload(
    network_id: u64,
    warp_version: u8,
    chain: ChainInfo,
    snapshot: Option<(H256, BlockNumber)>,
) -> Seq<u8> {
    encoded_list(
        status_items(
            if warp_version != 0 {
                warp_version
            } else {
                ETH_PROTOCOL_VERSION_63
            },
            network_id,
            chain.total_difficulty,
            chain.best_block_hash,
            chain.genesis_hash,
        ) + match snapshot {
            Some((hash, number)) => status_snapshot_items(hash, number),
            None => Seq::empty(),
        },
    )
}

/// Writes the status message for a peer.  The version is that of the
/// snapshot-capable protocol where the peer speaks it, else the latest of
/// the base protocol.
pub fn build_status(
    network_id: u64,
    warp_version: u8,
    chain: &ChainInfo,
    snapshot: Option<(H256, BlockNumber)>,
) -> (r: Vec<u8>)
    ensures
        r@ == status_payload(network_id, warp_version, *chain, snapshot),
{
    let protocol = if warp_version != 0 {
        warp_version
    } else {
        ETH_PROTOCOL_VERSION_63
    };
    encode_status(
        protocol,
        network_id,
        &chain.total_difficulty,
        &chain.best_block_hash,
        &chain.genesis_hash,
        snapshot,
    )
}

/// What the status message tells of a snapshot.  A snapshot is told of to
/// a peer that speaks the snapshot-capable protocol while no old blocks are
/// fetched: the hash of the manifest on offer and the number of its block,
/// or zeros where none is on offer.
pub open spec fn told_snapshot(
    warp_version: u8,
    fetching_old_blocks: bool,
    offer: Option<(H256, BlockNumber)>,
) -> Option<(H256, BlockNumber)> {
    if warp_version != 0 && !fetching_old_blocks {
        Some(
            match offer {
                Some(o) => o,
                None => (H256::spec_zero(), 0u64),
            },
        )
    } else {
        None
    }
}

impl<D: BlockDownloader> ChainSync<D> {
    /// Whether `n` is this synchroniser after a peer that told the given
    /// status met with the given fate.  A peer that is taken is the last in
    /// the registry and takes part in the round; the first one starts the
    /// clock of the sync; where a fork block is set, the peer was asked for
    /// its header.
    pub open spec fn admitted(
        &self,
        n: Self,
        peer_id: PeerId,
        msg: StatusMessage,
        now: Timestamp,
        r: Admission,
    ) -> bool {
        match r {
            Admission::Expired => n == *self,
            Admission::Known => n == *self,
            Admission::Rejected => n == (ChainSync { outbox: n.outbox, ..*self }) && n.outbox@
                == self.outbox@.push(Action::Disable { peer: peer_id }),
            _ => {
                &&& n == (ChainSync {
                    peers: n.peers,
                    active_peers: n.active_peers,
                    sync_start_time: n.sync_start_time,
                    outbox: n.outbox,
                    ..*self
                })
                &&& n.peers.entries@.len() == self.peers.entries@.len() + 1
                &&& n.peers.entries@.drop_last() == self.peers.entries@
                &&& n.peers.entries@.last().id == peer_id
                &&& is_new_record(
                    n.peers.entries@.last().value,
                    msg,
                    self.fork_block is Some,
                    now,
                )
                &&& n.active_peers.has(peer_id)
                &&& forall|other: PeerId|
                    other != peer_id ==> n.active_peers.has(other) == self.active_peers.has(other)
                &&& n.sync_start_time == match self.sync_start_time {
                    Some(t) => Some(t),
                    None => Some(now),
                }
                &&& r is Ready ==> n.outbox == self.outbox
                &&& r is AwaitFork ==> n.outbox@.len() == self.outbox@.len() + 1
                    && self.outbox@.is_prefix_of(n.outbox@) && n.outbox@.last().sends(
                    peer_id,
                    GET_BLOCK_HEADERS_PACKET,
                    encoded_list(header_by_number_items(self.fork_number())),
                )
            },
        }
    }

    /// Whether `n` is this synchroniser after the given status of a peer
    /// was taken, where the network said `warp` of the peer's protocol and
    /// `expired` of its session and the chain client told `genesis`: the
    /// peer is greeted no longer (`first`), it met with its fate (`mid`),
    /// and where it is ready, work was sought for it.  With a status that
    /// cannot be read the peer is greeted no longer, and that is all.
    pub open spec fn status_taken(
        &self,
        first: Self,
        mid: Self,
        n: Self,
        peer_id: PeerId,
        data: Seq<u8>,
        warp: bool,
        expired: bool,
        genesis: H256,
        now: Timestamp,
    ) -> bool {
        &&& first == (ChainSync { handshaking_peers: first.handshaking_peers, ..*self })
        &&& match decoded_status(data, warp) {
            Some(msg) => {
                let r = spec_admission(
                    expired,
                    self.peers.has(peer_id),
                    acceptable(msg, warp, genesis, self.network_id),
                    self.fork_block is Some,
                );
                &&& first.admitted(mid, peer_id, msg, now, r)
                &&& if r is Ready {
                    mid.offers_work(n, peer_id, false, now)
                } else {
                    n == mid
                }
            },
            None => mid == first && n == first,
        }
    }

    /// Registers a peer that told its status, or turns it away; see
    /// `spec_admission`.  A peer that is taken takes part in the round; the
    /// first one starts the clock of the sync.  Where a fork block is set
    /// the peer is asked for its header.
    pub fn admit_peer(
        &mut self,
        peer_id: PeerId,
        msg: &StatusMessage,
        warp: bool,
        expired: bool,
        genesis: &H256,
        now: Timestamp,
    ) -> (r: Admission)
        requires
            old(self).wf(),
        ensures
            final(self).wf(),
            r == spec_admission(
                expired,
                old(self).peers.has(peer_id),
                acceptable(*msg, warp, *genesis, old(self).network_id),
                old(self).fork_block is Some,
            ),
            old(self).admitted(*final(self), peer_id, *msg, now, r),
    {
        if expired {
            return Admission::Expired;
        }
        if self.peers.contains_key(peer_id) {
            return Admission::Known;
        }
        if msg.genesis != *genesis || msg.network_id != self.network_id || !supported_version(
            warp,
            msg.protocol_version,
        ) {
            self.outbox.push(Action::Disable { peer: peer_id });
            return Admission::Rejected;
        }
        if self.sync_start_time.is_none() {
            self.sync_start_time = Some(now);
        }
        let peer = PeerInfo {
            protocol_version: msg.protocol_version,
            network_id: msg.network_id,
            difficulty: Some(msg.difficulty),
            latest_hash: msg.latest_hash,
            genesis: msg.genesis,
            asking: PeerAsking::Nothing,
            asking_blocks: Vec::new(),
            asking_hash: None,
            ask_time: now,
            last_sent_transactions: HashList::new(),
            expired: false,
            confirmation: if self.fork_block.is_none() {
                ForkConfirmation::Confirmed
            } else {
                ForkConfirmation::Unconfirmed
            },
            asking_snapshot_data: None,
            snapshot_hash: msg.snapshot_hash,
            snapshot_number: msg.snapshot_number,
            block_set: None,
        };
        self.peers.insert(peer_id, peer);
        self.active_peers.insert(peer_id, ());
        proof {
            let b = self.peers.entries@;
            assert(b.drop_last() =~= old(self).peers.entries@);
            assert forall|i: int| 0 <= i < b.len() implies (#[trigger] b[i]).value.wf() by {
                if i < b.len() - 1 {
                    assert(b[i] == old(self).peers.entries@[i]);
                }
            }
        }
        match self.fork_block {
            Some((fork_block, _)) => {
                let ghost mid = self.peers.entries@;
                request_fork_header_by_number(
                    &mut self.peers,
                    &mut self.outbox,
                    peer_id,
                    fork_block,
                    now,
                );
                proof {
                    let b = self.peers.entries@;
                    lemma_position_unique(mid, mid.len() - 1);
                    assert(b.drop_last() =~= old(self).peers.entries@);
                    assert forall|i: int| 0 <= i < b.len() implies (#[trigger] b[i]).value.wf() by {
                        if i < b.len() - 1 {
                            assert(b[i] == old(self).peers.entries@[i]);
                        }
                    }
                }
                Admission::AwaitFork
            },
            None => Admission::Ready,
        }
    }

    /// Whether `n` is this synchroniser after the status that a peer sent
    /// was dealt with, with `r` as the outcome.
    pub open spec fn handles_status(
        &self,
        n: Self,
        peer_id: PeerId,
        data: Seq<u8>,
        now: Timestamp,
        r: Result<(), PacketDecodeError>,
    ) -> bool {
        &&& n.wf()
        &&& !n.handshaking_peers.has(peer_id)
        &&& forall|other: PeerId|
            other != peer_id ==> n.handshaking_peers.has(other) == self.handshaking_peers.has(other)
        &&& self.outbox@.is_prefix_of(n.outbox@)
        &&& decoded_status(data, false) is None ==> r is Err
        &&& decoded_status(data, true) is Some ==> r is Ok
        &&& r is Err ==> n == (ChainSync {
            handshaking_peers: n.handshaking_peers,
            ..*self
        })
        &&& self.peers.has(peer_id) ==> n == (ChainSync {
            handshaking_peers: n.handshaking_peers,
            ..*self
        })
        &&& forall|other: PeerId|
            other != peer_id ==> n.peers.has(other) == self.peers.has(other)
        &&& !self.peers.has(peer_id) && n.peers.has(peer_id) ==> {
            &&& n.peer(peer_id).network_id == self.network_id
            &&& n.peer(peer_id).confirmation == if self.fork_block is Some {
                ForkConfirmation::Unconfirmed
            } else {
                ForkConfirmation::Confirmed
            }
            &&& self.fork_block is Some ==> n.peer(peer_id).asking
                == PeerAsking::ForkHeader && n.outbox@.len() == self.outbox@.len() + 1
                    && n.outbox@.last().sends(
                peer_id,
                GET_BLOCK_HEADERS_PACKET,
                encoded_list(header_by_number_items(self.fork_number())),
            )
        }
        &&& exists|warp: bool, expired: bool, genesis: H256, first: Self, mid: Self|
            #[trigger] self.status_taken(
                first,
                mid,
                n,
                peer_id,
                data,
                warp,
                expired,
                genesis,
                now,
            ) && (r is Err <==> decoded_status(data, warp) is None)
    }

    /// Takes the status that a peer told.  The peer is greeted no longer.
    /// Where the message cannot be decoded nothing else is done; else the
    /// peer is admitted or turned away as `admit_peer` says, and a peer
    /// that is ready is given work.
    pub fn on_peer_status<I: SyncIo>(
        &mut self,
        io: &mut I,
        peer_id: PeerId,
        data: &[u8],
        now: Timestamp,
    ) -> (r: Result<(), PacketDecodeError>)
        requires
            old(self).wf(),
        ensures
            old(self).handles_status(*final(self), peer_id, data@, now, r),
    {
        let _ = self.handshaking_peers.remove(peer_id);
        let ghost first = *self;
        let warp = io.warp_protocol_version(peer_id) != 0;
        let msg = match decode_status(data, warp) {
            Ok(msg) => msg,
            Err(e) => {
                proof {
                    assert(old(self).status_taken(
                        first,
                        first,
                        *self,
                        peer_id,
                        data@,
                        warp,
                        false,
                        H256::spec_zero(),
                        now,
                    ));
                }
                return Err(e);
            },
        };
        let expired = io.is_expired();
        let chain_info = io.chain_info();
        let ghost g0 = *self;
        let admission = self.admit_peer(
            peer_id,
            &msg,
            warp,
            expired,
            &chain_info.genesis_hash,
            now,
        );
        let ghost g1 = *self;
        proof {
            let a = g0.peers.entries@;
            let b = g1.peers.entries@;
            if admission is AwaitFork || admission is Ready {
                assert(b[b.len() - 1].id == peer_id);
                lemma_position_unique(b, b.len() - 1);
                assert forall|other: PeerId| other != peer_id implies has_id(b, other) == has_id(
                    a,
                    other,
                ) by {
                    if has_id(a, other) {
                        let k = position(a, other);
                        assert(b.drop_last()[k] == b[k]);
                        assert(b[k].id == other);
                    }
                    if has_id(b, other) {
                        let k = position(b, other);
                        assert(b.drop_last()[k] == b[k]);
                        assert(a[k].id == other);
                    }
                }
            }
        }
        match admission {
            Admission::Ready => {
                self.sync_peer(io, peer_id, false, now);
                proof {
                    lemma_prefix_trans(old(self).outbox@, g1.outbox@, self.outbox@);
                    let b = g1.peers.entries@;
                    let c = self.peers.entries@;
                    assert(crate::relations::peer_evolves(
                        b[b.len() - 1].value,
                        c[b.len() - 1].value,
                        peer_id,
                        self.outbox@,
                        g1.outbox@.len() as int,
                    ));
                    assert(c[b.len() - 1].id == peer_id);
                    lemma_position_unique(c, b.len() - 1);
                    assert forall|other: PeerId| has_id(c, other) == has_id(b, other) by {
                        crate::peer_map::lemma_same_ids_has(b, c, other);
                    }
                }
            },
            _ => {},
        }
        proof {
            assert(old(self).status_taken(
                first,
                g1,
                *self,
                peer_id,
                data@,
                warp,
                expired,
                chain_info.genesis_hash,
                now,
            ));
        }
        Ok(())
    }

    /// Whether `n` is this synchroniser after the status message was queued
    /// for a peer, where the peer speaks the given version of the
    /// snapshot-capable protocol (zero for none), the chain is as `chain`
    /// tells and the snapshot service offers `offer`, of which `hash` is
    /// the hash.  The hash is stated for a manifest that has no more chunks
    /// of either kind than `MAX_MANIFEST_CHUNKS`.
    pub open spec fn status_sent(
        &self,
        n: Self,
        peer: PeerId,
        warp_version: u8,
        chain: ChainInfo,
        offer: Option<ManifestView>,
        hash: H256,
    ) -> bool {
        &&& n == (ChainSync { outbox: n.outbox, ..*self })
        &&& n.outbox@.len() == self.outbox@.len() + 1
        &&& self.outbox@.is_prefix_of(n.outbox@)
        &&& n.outbox@.last().sends(
            peer,
            STATUS_PACKET,
            status_payload(
                self.network_id,
                warp_version,
                chain,
                told_snapshot(
                    warp_version,
                    self.old_blocks is Some,
                    match offer {
                        Some(m) => Some((hash, m.block_number)),
                        None => None,
                    },
                ),
            ),
        )
        &&& match offer {
            Some(m) => m.state_hashes.len() <= MAX_MANIFEST_CHUNKS && m.block_hashes.len()
                <= MAX_MANIFEST_CHUNKS ==> hash == keccak_of(encoded_list(manifest_items(m))),
            None => true,
        }
    }

    /// Queues the status message for a peer: see `status_sent`.
    pub fn send_status<I: SyncIo>(&mut self, io: &mut I, peer: PeerId)
        ensures
            *final(self) == (ChainSync { outbox: final(self).outbox, ..*old(self) }),
            final(self).outbox@.len() == old(self).outbox@.len() + 1,
            old(self).outbox@.is_prefix_of(final(self).outbox@),
            final(self).outbox@.last().sends_kind(peer, STATUS_PACKET),
            exists|warp_version: u8, chain: ChainInfo, offer: Option<ManifestView>, hash: H256|
                #[trigger] old(self).status_sent(
                    *final(self),
                    peer,
                    warp_version,
                    chain,
                    offer,
                    hash,
                ),
    {
        let warp_version = io.warp_protocol_version(peer);
        let chain = io.chain_info();
        let ghost mut offer: Option<ManifestView> = None;
        let ghost mut hash = H256::spec_zero();
        let snapshot = if warp_version != 0 && self.old_blocks.is_none() {
            match io.snapshot_manifest() {
                Some(m) => {
                    let encoded = encode_manifest(&m);
                    let h = keccak(encoded.as_slice());
                    proof {
                        offer = Some(m@);
                        hash = h;
                    }
                    Some((h, m.block_number))
                },
                None => Some((H256::zero(), 0u64)),
            }
        } else {
            None
        };
        let packet = build_status(self.network_id, warp_version, &chain, snapshot);
        self.outbox.push(Action::Send { peer, packet_id: STATUS_PACKET, data: packet });
        proof {
            assert(old(self).status_sent(*self, peer, warp_version, chain, offer, hash));
        }
    }

    /// Greets a peer that has connected: the status message is queued for
    /// it and the time is noted.
    pub fn on_peer_connected<I: SyncIo>(&mut self, io: &mut I, peer: PeerId, now: Timestamp)
        requires
            old(self).wf(),
        ensures
            final(self).wf(),
            *final(self) == (ChainSync {
                outbox: final(self).outbox,
                handshaking_peers: final(self).handshaking_peers,
                ..*old(self)
            }),
            final(self).outbox@.len() == old(self).outbox@.len() + 1,
            old(self).outbox@.is_prefix_of(final(self).outbox@),
            final(self).outbox@.last().sends_kind(peer, STATUS_PACKET),
            exists|
                mid: Self,
                warp_version: u8,
                chain: ChainInfo,
                offer: Option<ManifestView>,
                hash: H256,
            |
                #[trigger] old(self).status_sent(mid, peer, warp_version, chain, offer, hash)
                    && *final(self) == (ChainSync {
                    handshaking_peers: final(self).handshaking_peers,
                    ..mid
                }),
            final(self).handshaking_peers.has(peer),
            final(self).handshaking_peers.value_of(peer) == now,
            forall|other: PeerId|
                other != peer ==> final(self).handshaking_peers.has(other) == old(
                    self,
                ).handshaking_peers.has(other) && (old(self).handshaking_peers.has(other)
                    ==> final(self).handshaking_peers.value_of(other) == old(
                    self,
                ).handshaking_peers.value_of(other)),
    {
        self.send_status(io, peer);
        self.handshaking_peers.insert(peer, now);
    }
}

} // verus!
