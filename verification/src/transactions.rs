//! Announcing transactions: each peer is told of the transactions that wait
//! and that it has not been told of before.

use vstd::prelude::*;
use vstd::slice::slice_to_vec;
use crate::codec::{be_bytes, concat, header};
use crate::env::PendingTransaction;
use crate::hash_list::{find_hash, HashList};
use crate::packets::{encode_raw_list, raw_items};
use crate::peer::PeerInfo;
use crate::primitives::H256;
use crate::primitives::{MAX_TRANSACTIONS_TO_PROPAGATE, MAX_TRANSACTION_PACKET_SIZE};

verus! {

/// Whether a peer is in luck with the given draw among `n` peers: about one
/// draw in the square root of `n` is.
pub open spec fn spec_is_lucky(draw: u32, n: nat) -> bool {
    (draw + 1) * (draw + 1) * n <= 0xffff_ffff * 0xffff_ffff
}

pub fn is_lucky(draw: u32, n: usize) -> (r: bool)
    ensures
        r == spec_is_lucky(draw, n as nat),
{
    let d: u128 = draw as u128 + 1;
    assert(d * d <= 0x1_0000_0000_0000_0000) by (nonlinear_arith)
        requires
            1 <= d <= 0x1_0000_0000,
    ;
    let square: u128 = d * d;
    assert(square * (n as u128) <= 0x1_0000_0000_0000_0000 * 0xffff_ffff_ffff_ffff)
        by (nonlinear_arith)
        requires
            0 <= square <= 0x1_0000_0000_0000_0000,
            0 <= n <= 0xffff_ffff_ffff_ffff,
    ;
    let product: u128 = square * (n as u128);
    let limit: u128 = 0xffff_ffffu128 * 0xffff_ffffu128;
    product <= limit
}

/// Whether a peer has been told of every one of the transactions.
pub open spec fn covers(sent: HashList, txs: Seq<PendingTransaction>) -> bool {
    forall|i: int| 0 <= i < txs.len() ==> sent.has((#[trigger] txs[i]).hash)
}

/// Whether a hash is that of one of the transactions.
pub open spec fn among(txs: Seq<PendingTransaction>, hash: H256) -> bool {
    exists|i: int| 0 <= i < txs.len() && (#[trigger] txs[i]).hash == hash
}

/// What is sent to one peer.
pub struct Announcement {
    /// The hashes of the transactions in the packet.
    pub hashes: Vec<H256>,
    /// The payload: the list of the transactions.
    pub packet: Vec<u8>,
}

/// The number of bytes that the length of a payload is written with.
pub fn length_bytes(n: usize) -> (r: usize)
    ensures
        r == be_bytes(n as nat).len(),
        r <= 8,
{
    let mut r: usize = 0;
    let mut rest: usize = n;
    proof {
        assert(crate::codec::pow256(8) == 0x1_0000_0000_0000_0000) by {
            reveal_with_fuel(crate::codec::pow256, 9);
        }
        crate::codec::lemma_be_bytes_len(n as nat, 8);
    }
    while rest > 0
        invariant
            be_bytes(n as nat).len() == r + be_bytes(rest as nat).len(),
            be_bytes(n as nat).len() <= 8,
        decreases rest,
    {
        rest = rest / 256;
        r += 1;
    }
    r
}

/// The size of a list whose items have `payload` bytes in all.
pub fn list_size(payload: usize) -> (r: usize)
    requires
        payload <= MAX_TRANSACTION_PACKET_SIZE,
    ensures
        r == header(0xc0, payload as nat).len() + payload,
{
    if payload <= 55 {
        payload + 1
    } else {
        payload + 1 + length_bytes(payload)
    }
}

/// The hashes of the transactions, each once.
pub fn hashes_of(txs: &Vec<PendingTransaction>) -> (r: HashList)
    ensures
        r.wf(),
        forall|h: H256| r.has(h) == among(txs@, h),
        r.items@.len() <= txs@.len(),
        txs@.len() > 0 ==> r.items@.len() > 0,
{
    let mut r = HashList::new();
    let mut i: usize = 0;
    while i < txs.len()
        invariant
            i <= txs@.len(),
            r.wf(),
            r.items@.len() <= i,
            i > 0 ==> r.items@.len() > 0,
            forall|h: H256| r.has(h) == among(txs@.subrange(0, i as int), h),
        decreases txs@.len() - i,
    {
        let ghost before = r;
        let _ = r.insert(txs[i].hash);
        proof {
            let a = txs@.subrange(0, i as int);
            let b = txs@.subrange(0, i + 1);
            assert forall|h: H256| r.has(h) == among(b, h) by {
                if among(a, h) {
                    let k = choose|k: int| 0 <= k < a.len() && (#[trigger] a[k]).hash == h;
                    assert(b[k].hash == h);
                }
                if h == txs@[i as int].hash {
                    assert(b[i as int].hash == h);
                }
                if among(b, h) {
                    let k = choose|k: int| 0 <= k < b.len() && (#[trigger] b[k]).hash == h;
                    if k < i {
                        assert(a[k].hash == h);
                    }
                }
            }
        }
        i += 1;
    }
    assert(txs@.subrange(0, txs@.len() as int) =~= txs@);
    r
}

/// The transactions picked for one packet, as far as the picking has come.
pub struct Picked {
    /// Their hashes.
    pub hashes: Seq<H256>,
    /// The transactions as they are encoded.
    pub raws: Seq<Seq<u8>>,
    /// Whether a transaction was met that the packet has no room for.
    pub full: bool,
}

/// Whether a packet that holds `payload` bytes of transactions has no room
/// for `size` more.
pub open spec fn spec_too_large(payload: nat, size: nat) -> bool {
    header(0xc0, payload + size).len() + payload + size > MAX_TRANSACTION_PACKET_SIZE
}

/// What comes of looking at one more transaction for a peer that was told
/// of the transactions `told`.  One that the peer was told of, or that is
/// picked already, is passed over.  With the first other one that the
/// packet has no room for, by number or by size, the picking is over.
pub open spec fn pick_step(p: Picked, tx: PendingTransaction, told: Seq<H256>) -> Picked {
    if p.full || told.contains(tx.hash) || p.hashes.contains(tx.hash) {
        p
    } else if p.hashes.len() >= MAX_TRANSACTIONS_TO_PROPAGATE || spec_too_large(
        concat(p.raws).len(),
        tx.raw@.len(),
    ) {
        Picked { full: true, ..p }
    } else {
        Picked { hashes: p.hashes.push(tx.hash), raws: p.raws.push(tx.raw@), full: false }
    }
}

/// The transactions picked for the packet for a peer that was told of the
/// transactions `told`: the first of those that it was not told of, as
/// many as one packet holds.
pub open spec fn picked(txs: Seq<PendingTransaction>, told: Seq<H256>) -> Picked
    decreases txs.len(),
{
    if txs.len() == 0 {
        Picked { hashes: Seq::empty(), raws: Seq::empty(), full: false }
    } else {
        pick_step(picked(txs.drop_last(), told), txs.last(), told)
    }
}

/// What holds of the transactions picked: each is one of the transactions
/// and none that the peer was told of, none is picked twice, and they are
/// no more than one packet holds; unless the packet was full, every
/// transaction is picked or one that the peer was told of.
pub proof fn lemma_picked(txs: Seq<PendingTransaction>, told: Seq<H256>)
    ensures
        picked(txs, told).hashes.len() == picked(txs, told).raws.len(),
        picked(txs, told).hashes.len() <= MAX_TRANSACTIONS_TO_PROPAGATE,
        picked(txs, told).hashes.len() <= txs.len(),
        crate::hash_list::distinct(picked(txs, told).hashes),
        picked(txs, told).hashes.len() > 0 ==> header(
            0xc0,
            concat(picked(txs, told).raws).len(),
        ).len() + concat(picked(txs, told).raws).len() <= MAX_TRANSACTION_PACKET_SIZE,
        forall|k: int|
            0 <= k < picked(txs, told).hashes.len() ==> among(
                txs,
                #[trigger] picked(txs, told).hashes[k],
            ) && !told.contains(picked(txs, told).hashes[k]),
        !picked(txs, told).full ==> forall|k: int|
            0 <= k < txs.len() ==> told.contains((#[trigger] txs[k]).hash) || picked(
                txs,
                told,
            ).hashes.contains(txs[k].hash),
        picked(txs, told).full ==> exists|k: int|
            0 <= k < txs.len() && !told.contains((#[trigger] txs[k]).hash),
    decreases txs.len(),
{
    if txs.len() > 0 {
        let rest = txs.drop_last();
        let tx = txs.last();
        lemma_picked(rest, told);
        let q = picked(rest, told);
        let p = picked(txs, told);
        assert forall|k: int| 0 <= k < p.hashes.len() implies among(txs, #[trigger] p.hashes[k])
            && !told.contains(p.hashes[k]) by {
            if k < q.hashes.len() {
                assert(p.hashes[k] == q.hashes[k]);
                let j = choose|j: int| 0 <= j < rest.len() && (#[trigger] rest[j]).hash
                    == q.hashes[k];
                assert(txs[j].hash == q.hashes[k]);
            } else {
                assert(txs[txs.len() - 1].hash == p.hashes[k]);
            }
        }
        if p != q && !p.full {
            crate::codec::lemma_concat_push(q.raws, tx.raw@);
        }
        if !p.full {
            assert forall|k: int| 0 <= k < txs.len() implies told.contains(
                (#[trigger] txs[k]).hash,
            ) || p.hashes.contains(txs[k].hash) by {
                if k < rest.len() {
                    assert(rest[k] == txs[k]);
                    if q.hashes.contains(txs[k].hash) {
                        let j = choose|j: int| 0 <= j < q.hashes.len() && q.hashes[j]
                            == txs[k].hash;
                        assert(p.hashes[j] == txs[k].hash);
                    }
                } else {
                    if p != q {
                        assert(p.hashes[q.hashes.len() as int] == tx.hash);
                    }
                }
            }
        }
        if p.full {
            if q.full {
                let k = choose|k: int| 0 <= k < rest.len() && !told.contains(
                    (#[trigger] rest[k]).hash,
                );
                assert(!told.contains(txs[k].hash));
            } else {
                assert(!told.contains(txs[txs.len() - 1].hash));
            }
        }
    }
}

/// What is picked depends on the hashes and the encodings of the
/// transactions only.
pub proof fn lemma_picked_alike(
    a: Seq<PendingTransaction>,
    b: Seq<PendingTransaction>,
    told: Seq<H256>,
)
    requires
        a.len() == b.len(),
        forall|i: int| 0 <= i < a.len() ==> (#[trigger] a[i]).hash == b[i].hash && a[i].raw@
            == b[i].raw@,
    ensures
        picked(a, told) == picked(b, told),
    decreases a.len(),
{
    if a.len() > 0 {
        assert(a.last().hash == b.last().hash && a.last().raw@ == b.last().raw@);
        assert forall|i: int| 0 <= i < a.drop_last().len() implies (
        #[trigger] a.drop_last()[i]).hash == b.drop_last()[i].hash && a.drop_last()[i].raw@
            == b.drop_last()[i].raw@ by {
            assert(a[i].hash == b[i].hash);
        }
        lemma_picked_alike(a.drop_last(), b.drop_last(), told);
    }
}

/// Decides what one peer is told, and notes it in the peer's record.
///
/// The peer is told of the first transactions that it has not been told
/// of, as many as one packet holds in number and in bytes: see `picked`.
/// Where there are none, nothing is sent and the record stays as it is.
/// Else the record holds the transactions that wait and that the peer has
/// been told of, now or before.
pub fn announce_to(peer: &mut PeerInfo, txs: &Vec<PendingTransaction>, all: &HashList) -> (r:
    Option<Announcement>)
    requires
        old(peer).wf(),
        all.wf(),
        forall|h: H256| all.has(h) == among(txs@, h),
    ensures
        final(peer).wf(),
        *final(peer) == (PeerInfo {
            last_sent_transactions: final(peer).last_sent_transactions,
            ..*old(peer)
        }),
        r is None <==> picked(txs@, old(peer).last_sent_transactions.items@).hashes.len() == 0,
        r is None ==> *final(peer) == *old(peer),
        r matches Some(a) ==> a.hashes@ == picked(
            txs@,
            old(peer).last_sent_transactions.items@,
        ).hashes && a.packet@ == crate::codec::encoded_list(
            picked(txs@, old(peer).last_sent_transactions.items@).raws,
        ),
        r is Some ==> forall|h: H256|
            #[trigger] final(peer).last_sent_transactions.has(h) == ((old(
                peer,
            ).last_sent_transactions.has(h) && among(txs@, h)) || picked(
                txs@,
                old(peer).last_sent_transactions.items@,
            ).hashes.contains(h)),
        covers(old(peer).last_sent_transactions, txs@) ==> r is None,
        txs@.len() > 0 && old(peer).last_sent_transactions.items@.len() == 0 && !picked(
            txs@,
            Seq::empty(),
        ).full ==> r is Some && covers(final(peer).last_sent_transactions, txs@),
        r is Some ==> forall|h: H256|
            final(peer).last_sent_transactions.has(h) ==> among(txs@, h),
        r is Some ==> forall|h: H256|
            old(peer).last_sent_transactions.has(h) && among(txs@, h)
                ==> final(peer).last_sent_transactions.has(h),
        r matches Some(a) ==> forall|k: int|
            0 <= k < a.hashes@.len() ==> final(peer).last_sent_transactions.has(
                #[trigger] a.hashes@[k],
            ),
        r matches Some(a) ==> a.hashes@.len() >= 1 && a.hashes@.len()
            <= MAX_TRANSACTIONS_TO_PROPAGATE && a.packet@.len() <= MAX_TRANSACTION_PACKET_SIZE,
{
    let ghost told = peer.last_sent_transactions.items@;
    let mut chosen: Vec<H256> = Vec::new();
    let mut raw: Vec<Vec<u8>> = Vec::new();
    let mut payload: usize = 0;
    let mut full = false;
    let mut i: usize = 0;
    proof {
        assert(txs@.subrange(0, 0) =~= Seq::<PendingTransaction>::empty());
        assert(raw_items(raw@) =~= Seq::<Seq<u8>>::empty());
    }
    while i < txs.len()
        invariant
            i <= txs@.len(),
            told == old(peer).last_sent_transactions.items@,
            *peer == *old(peer),
            payload <= MAX_TRANSACTION_PACKET_SIZE,
            payload == concat(raw_items(raw@)).len(),
            chosen@.len() <= MAX_TRANSACTIONS_TO_PROPAGATE,
            picked(txs@.subrange(0, i as int), told) == (Picked {
                hashes: chosen@,
                raws: raw_items(raw@),
                full,
            }),
        decreases txs@.len() - i,
    {
        proof {
            assert(txs@.subrange(0, i + 1).drop_last() =~= txs@.subrange(0, i as int));
            lemma_picked(txs@.subrange(0, i as int), told);
        }
        let hash = txs[i].hash;
        if !full && !peer.last_sent_transactions.contains(&hash) && find_hash(
            &chosen,
            &hash,
        ).is_none() {
            let size = txs[i].raw.len();
            if chosen.len() >= MAX_TRANSACTIONS_TO_PROPAGATE || size > MAX_TRANSACTION_PACKET_SIZE
                - payload || list_size(payload + size) > MAX_TRANSACTION_PACKET_SIZE {
                proof {
                    if size > MAX_TRANSACTION_PACKET_SIZE - payload {
                        assert(spec_too_large(payload as nat, size as nat));
                    }
                }
                full = true;
            } else {
                let ghost before = raw@;
                raw.push(slice_to_vec(txs[i].raw.as_slice()));
                chosen.push(hash);
                payload = payload + size;
                proof {
                    assert(raw_items(raw@) =~= raw_items(before).push(txs@[i as int].raw@));
                    crate::codec::lemma_concat_push(raw_items(before), txs@[i as int].raw@);
                }
            }
        }
        i += 1;
    }
    proof {
        assert(txs@.subrange(0, txs@.len() as int) =~= txs@);
        lemma_picked(txs@, told);
        lemma_picked(txs@, Seq::empty());
    }
    let ghost p = picked(txs@, told);
    if chosen.len() == 0 {
        proof {
            if txs@.len() > 0 && told.len() == 0 {
                assert(told =~= Seq::<H256>::empty());
                if !p.full {
                    assert(told.contains(txs@[0].hash) || p.hashes.contains(txs@[0].hash));
                }
            }
        }
        return None;
    }
    let packet = encode_raw_list(&raw);
    proof {
        crate::codec::lemma_header_len(0xc0, payload as nat);
        assert(!covers(old(peer).last_sent_transactions, txs@)) by {
            let h = chosen@[0];
            let k = choose|k: int| 0 <= k < txs@.len() && (#[trigger] txs@[k]).hash == h;
            assert(!old(peer).last_sent_transactions.has(txs@[k].hash));
        }
    }
    // Keep what still waits of what the peer was told before.
    let mut kept = HashList::new();
    let mut k: usize = 0;
    while k < peer.last_sent_transactions.items.len()
        invariant
            k <= peer.last_sent_transactions.items@.len(),
            kept.wf(),
            *peer == *old(peer),
            forall|h: H256|
                kept.has(h) == (peer.last_sent_transactions.items@.subrange(0, k as int).contains(
                    h,
                ) && all.has(h)),
        decreases peer.last_sent_transactions.items@.len() - k,
    {
        let h = peer.last_sent_transactions.items[k];
        let ghost seen = peer.last_sent_transactions.items@.subrange(0, k as int);
        let ghost next = peer.last_sent_transactions.items@.subrange(0, k + 1);
        if all.contains(&h) {
            let _ = kept.insert(h);
        }
        proof {
            assert(next =~= seen.push(h));
            assert forall|x: H256| next.contains(x) == (seen.contains(x) || x == h) by {
                if seen.contains(x) {
                    let j = choose|j: int| 0 <= j < seen.len() && seen[j] == x;
                    assert(next[j] == x);
                }
                if x == h {
                    assert(next[k as int] == h);
                }
            }
        }
        k += 1;
    }
    proof {
        assert(peer.last_sent_transactions.items@.subrange(
            0,
            peer.last_sent_transactions.items@.len() as int,
        ) =~= peer.last_sent_transactions.items@);
    }
    let mut c: usize = 0;
    while c < chosen.len()
        invariant
            c <= chosen@.len(),
            kept.wf(),
            *peer == *old(peer),
            forall|h: H256|
                kept.has(h) == ((peer.last_sent_transactions.has(h) && all.has(h))
                    || chosen@.subrange(0, c as int).contains(h)),
        decreases chosen@.len() - c,
    {
        let h = chosen[c];
        let ghost seen = chosen@.subrange(0, c as int);
        let ghost next = chosen@.subrange(0, c + 1);
        let _ = kept.insert(h);
        proof {
            assert(next =~= seen.push(h));
            assert forall|x: H256| next.contains(x) == (seen.contains(x) || x == h) by {
                if seen.contains(x) {
                    let j = choose|j: int| 0 <= j < seen.len() && seen[j] == x;
                    assert(next[j] == x);
                }
                if x == h {
                    assert(next[c as int] == h);
                }
            }
        }
        c += 1;
    }
    proof {
        assert(chosen@.subrange(0, chosen@.len() as int) =~= chosen@);
        if txs@.len() > 0 && told.len() == 0 && !picked(txs@, Seq::empty()).full {
            assert(told =~= Seq::<H256>::empty());
            assert forall|j: int| 0 <= j < txs@.len() implies kept.has(
                (#[trigger] txs@[j]).hash,
            ) by {
                assert(!told.contains(txs@[j].hash));
            }
        }
    }
    peer.last_sent_transactions = kept;
    Some(Announcement { hashes: chosen, packet })
}

} // verus!
