//! Serving peers: answers to their requests for headers, bodies, receipts,
//! state nodes and the snapshot, read from the chain client and the
//! snapshot service.

use vstd::prelude::*;
use crate::action::Action;
use crate::chain_sync::ChainSync;
use crate::codec::{
    bool_at,
    decoded_bool_at,
    decoded_hash_at,
    decoded_item_at,
    decoded_item_count,
    concat,
    decoded_size,
    decoded_u64_at,
    encoded_bytes,
    encoded_list,
    hash_at,
    item_at,
    item_count,
    max_payload,
    size_of_item,
    u64_at,
    ListWriter,
    PacketDecodeError,
};
use crate::env::{BlockDownloader, SyncIo};
use crate::manifest::{encode_manifest, manifest_items, ManifestView, MAX_MANIFEST_CHUNKS};
use crate::packets::{encode_empty_list, encode_raw_list, raw_items};
use crate::primitives::{BlockNumber, PacketId, PeerId, Timestamp, H256};
use crate::primitives::{
    BLOCK_BODIES_PACKET,
    BLOCK_HEADERS_PACKET,
    CONSENSUS_DATA_PACKET,
    GET_BLOCK_BODIES_PACKET,
    GET_BLOCK_HEADERS_PACKET,
    GET_NODE_DATA_PACKET,
    GET_RECEIPTS_PACKET,
    GET_SNAPSHOT_DATA_PACKET,
    GET_SNAPSHOT_MANIFEST_PACKET,
    MAX_BODIES_TO_SEND,
    MAX_HEADERS_TO_SEND,
    MAX_NODE_DATA_TO_SEND,
    MAX_RECEIPTS_HEADERS_TO_SEND,
    MAX_RECEIPTS_TO_SEND,
    NODE_DATA_PACKET,
    RECEIPTS_PACKET,
    SNAPSHOT_DATA_PACKET,
    SNAPSHOT_MANIFEST_PACKET,
};

verus! {

/// An answer to a request: the kind of packet and its payload.
pub struct Response {
    pub packet_id: PacketId,
    pub data: Vec<u8>,
}

/// Whether a packet is a request that is served.
pub open spec fn is_served(packet_id: PacketId) -> bool {
    packet_id == GET_BLOCK_BODIES_PACKET || packet_id == GET_BLOCK_HEADERS_PACKET || packet_id
        == GET_RECEIPTS_PACKET || packet_id == GET_NODE_DATA_PACKET || packet_id
        == GET_SNAPSHOT_MANIFEST_PACKET || packet_id == GET_SNAPSHOT_DATA_PACKET
}

/// The kind of packet that answers a request.
pub open spec fn answer_kind(packet_id: PacketId) -> PacketId {
    if packet_id == GET_BLOCK_BODIES_PACKET {
        BLOCK_BODIES_PACKET
    } else if packet_id == GET_BLOCK_HEADERS_PACKET {
        BLOCK_HEADERS_PACKET
    } else if packet_id == GET_RECEIPTS_PACKET {
        RECEIPTS_PACKET
    } else if packet_id == GET_NODE_DATA_PACKET {
        NODE_DATA_PACKET
    } else if packet_id == GET_SNAPSHOT_MANIFEST_PACKET {
        SNAPSHOT_MANIFEST_PACKET
    } else {
        SNAPSHOT_DATA_PACKET
    }
}

/// The number of hashes of a request that are looked up: all of them, but
/// no more than `limit`; none where the request is no list.
pub open spec fn hashes_to_serve(data: Seq<u8>, limit: usize) -> nat {
    match decoded_item_count(data) {
        Some(count) => if count <= limit {
            count
        } else {
            limit as nat
        },
        None => 0,
    }
}

/// Whether each of the first `count` items of a request holds a hash.
pub open spec fn hashes_readable(data: Seq<u8>, count: nat) -> bool {
    forall|i: nat| i < count ==> (#[trigger] decoded_hash_at(data, i)) is Some
}

fn count_to_serve(data: &[u8], limit: usize) -> (r: usize)
    ensures
        r == hashes_to_serve(data@, limit),
        r <= limit,
{
    match item_count(data) {
        Ok(count) => if count <= limit {
            count
        } else {
            limit
        },
        Err(_) => 0,
    }
}

/// What is looked up for each hash of a request.
#[derive(Clone, Copy, Debug, PartialEq, Eq, Structural)]
pub enum Wanted {
    Bodies,
    Receipts,
    NodeData,
}

/// How far the looking up of a run of hashes has come: what was found, the
/// number of bytes of it, and whether it goes on.
pub struct Served {
    pub found: Seq<Seq<u8>>,
    pub bytes: nat,
    pub going: bool,
}

/// One look-up, answered with `answer`.  What is missing is passed over,
/// and so is what is too long for an item of a list.  For receipts, the
/// looking up ends once more than the most bytes of receipts for one answer
/// are found.
pub open spec fn serve_step(s: Served, answer: Option<Seq<u8>>, wanted: Wanted) -> Served {
    if !s.going {
        s
    } else {
        match answer {
            Some(item) => if item.len() <= max_payload() {
                let bytes = if wanted == Wanted::Receipts {
                    s.bytes + item.len()
                } else {
                    s.bytes
                };
                Served { found: s.found.push(item), bytes, going: bytes <= MAX_RECEIPTS_TO_SEND }
            } else {
                s
            },
            None => s,
        }
    }
}

/// The look-ups that were answered with `answers`, in turn.
pub open spec fn served(answers: Seq<Option<Seq<u8>>>, wanted: Wanted) -> Served
    decreases answers.len(),
{
    if answers.len() == 0 {
        Served { found: Seq::empty(), bytes: 0, going: true }
    } else {
        serve_step(served(answers.drop_last(), wanted), answers.last(), wanted)
    }
}

/// What `collect_by_hash` gives as a plain value.
pub open spec fn outcome(r: Result<Vec<Vec<u8>>, PacketDecodeError>) -> Option<Seq<Seq<u8>>> {
    match r {
        Ok(found) => Some(raw_items(found@)),
        Err(_) => None,
    }
}

/// Whether `r` is what comes of looking up the first `count` hashes of a
/// request, where the look-ups that were made were answered with `answers`:
/// the hashes are read one by one and looked up until all are done or the
/// looking up has ended, and `r` is what was found; a hash that cannot be
/// read when its turn comes leaves nothing.
pub open spec fn looked_up(
    data: Seq<u8>,
    count: nat,
    wanted: Wanted,
    answers: Seq<Option<Seq<u8>>>,
    r: Option<Seq<Seq<u8>>>,
) -> bool {
    let s = served(answers, wanted);
    &&& answers.len() <= count
    &&& hashes_readable(data, answers.len())
    &&& if answers.len() == count || !s.going {
        r == Some(s.found)
    } else {
        r is None && decoded_hash_at(data, answers.len()) is None
    }
}

/// Looks up what is wanted for each of the first `count` hashes of a
/// request: see `looked_up`.
pub fn collect_by_hash<I: SyncIo>(io: &I, data: &[u8], count: usize, wanted: Wanted) -> (r: Result<
    Vec<Vec<u8>>,
    PacketDecodeError,
>)
    ensures
        r matches Ok(found) ==> found@.len() <= count && forall|k: int|
            0 <= k < found@.len() ==> (#[trigger] found@[k])@.len() <= max_payload(),
        hashes_readable(data@, count as nat) ==> r is Ok,
        exists|answers: Seq<Option<Seq<u8>>>| #[trigger]
            looked_up(data@, count as nat, wanted, answers, outcome(r)),
{
    let mut found: Vec<Vec<u8>> = Vec::new();
    let mut bytes: usize = 0;
    let mut going = true;
    let mut i: usize = 0;
    let ghost mut answers: Seq<Option<Seq<u8>>> = Seq::empty();
    proof {
        assert(raw_items(found@) =~= Seq::<Seq<u8>>::empty());
    }
    while i < count && going
        invariant
            i <= count,
            found@.len() <= i,
            forall|k: int| 0 <= k < found@.len() ==> (#[trigger] found@[k])@.len() <= max_payload(),
            answers.len() == i,
            hashes_readable(data@, i as nat),
            served(answers, wanted).found == raw_items(found@),
            served(answers, wanted).going == going,
            going ==> served(answers, wanted).bytes == bytes && bytes <= MAX_RECEIPTS_TO_SEND,
        decreases count - i,
    {
        let hash = match hash_at(data, i) {
            Ok(hash) => hash,
            Err(e) => {
                let r = Err(e);
                proof {
                    assert(looked_up(data@, count as nat, wanted, answers, outcome(r)));
                }
                return r;
            },
        };
        let item = match wanted {
            Wanted::Bodies => io.block_body(&hash),
            Wanted::Receipts => io.block_receipts(&hash),
            Wanted::NodeData => io.state_data(&hash),
        };
        let ghost answer: Option<Seq<u8>> = if item is Some {
            Some(item->0@)
        } else {
            None
        };
        let ghost before = answers;
        proof {
            answers = answers.push(answer);
            assert(answers.drop_last() =~= before);
            assert(answers.last() == answer);
        }
        if let Some(item) = item {
            if item.len() <= 0xffff_ffff {
                if wanted == Wanted::Receipts {
                    bytes = if item.len() > usize::MAX - bytes {
                        usize::MAX
                    } else {
                        bytes + item.len()
                    };
                    if bytes > MAX_RECEIPTS_TO_SEND {
                        going = false;
                    }
                }
                proof {
                    assert(raw_items(found@.push(item)) =~= raw_items(found@).push(item@));
                }
                found.push(item);
            }
        }
        i += 1;
    }
    let r = Ok(found);
    proof {
        assert(looked_up(data@, count as nat, wanted, answers, outcome(r)));
    }
    r
}

/// The kind of packet that carries what was looked up.
pub open spec fn carrier(wanted: Wanted) -> PacketId {
    match wanted {
        Wanted::Bodies => BLOCK_BODIES_PACKET,
        Wanted::Receipts => RECEIPTS_PACKET,
        Wanted::NodeData => NODE_DATA_PACKET,
    }
}

/// The items of the answer that carries what was found: bodies and receipts
/// as they are, each state node as a byte string.
pub open spec fn answer_items(found: Seq<Seq<u8>>, wanted: Wanted) -> Seq<Seq<u8>> {
    if wanted == Wanted::NodeData {
        found.map_values(|b: Seq<u8>| encoded_bytes(b))
    } else {
        found
    }
}

/// Whether `r` is an answer of the given kind whose payload is the list of
/// the given items.  The payload is stated for lists that are not longer
/// than a list can be written.
pub open spec fn is_list_answer(
    r: Result<Option<Response>, PacketDecodeError>,
    packet_id: PacketId,
    items: Seq<Seq<u8>>,
) -> bool {
    match r {
        Ok(Some(response)) => response.packet_id == packet_id && (concat(items).len()
            <= max_payload() ==> response.data@ == encoded_list(items)),
        _ => false,
    }
}

/// Whether `r` answers a request for what is `wanted` of at most `limit`
/// hashes, where the look-ups that were made were answered with `answers`:
/// no answer to a request that is empty or no list; an error where a hash
/// cannot be read when its turn comes; else the list of what was found.
pub open spec fn hashes_served(
    data: Seq<u8>,
    limit: usize,
    wanted: Wanted,
    answers: Seq<Option<Seq<u8>>>,
    r: Result<Option<Response>, PacketDecodeError>,
) -> bool {
    let count = hashes_to_serve(data, limit);
    let s = served(answers, wanted);
    if count == 0 {
        r == Ok::<Option<Response>, PacketDecodeError>(None)
    } else {
        &&& answers.len() <= count
        &&& hashes_readable(data, answers.len())
        &&& if answers.len() == count || !s.going {
            is_list_answer(r, carrier(wanted), answer_items(s.found, wanted))
        } else {
            r is Err && decoded_hash_at(data, answers.len()) is None
        }
    }
}

/// Answers a request for what is `wanted` of at most `limit` hashes.
fn serve_hashes<I: SyncIo>(io: &I, data: &[u8], limit: usize, wanted: Wanted) -> (r: Result<
    Option<Response>,
    PacketDecodeError,
>)
    ensures
        exists|answers: Seq<Option<Seq<u8>>>| #[trigger]
            hashes_served(data@, limit, wanted, answers, r),
{
    let count = count_to_serve(data, limit);
    if count == 0 {
        let r = Ok(None);
        proof {
            assert(hashes_served(data@, limit, wanted, Seq::empty(), r));
        }
        return r;
    }
    let looked = collect_by_hash(io, data, count, wanted);
    let ghost answers = choose|answers: Seq<Option<Seq<u8>>>|
        looked_up(data@, count as nat, wanted, answers, outcome(looked));
    let found = match looked {
        Ok(found) => found,
        Err(e) => {
            let r = Err(e);
            proof {
                assert(hashes_served(data@, limit, wanted, answers, r));
            }
            return r;
        },
    };
    let payload = match wanted {
        Wanted::NodeData => {
            let mut w = ListWriter::new(found.len());
            let mut i: usize = 0;
            while i < found.len()
                invariant
                    i <= found@.len(),
                    w.capacity() == found@.len(),
                    w.items() == answer_items(
                        raw_items(found@.subrange(0, i as int)),
                        Wanted::NodeData,
                    ),
                    forall|k: int|
                        0 <= k < found@.len() ==> (#[trigger] found@[k])@.len() <= max_payload(),
                decreases found@.len() - i,
            {
                proof {
                    assert(answer_items(
                        raw_items(found@.subrange(0, i as int)),
                        Wanted::NodeData,
                    ).push(encoded_bytes(found@[i as int]@)) =~= answer_items(
                        raw_items(found@.subrange(0, i + 1)),
                        Wanted::NodeData,
                    ));
                }
                w.bytes(found[i].as_slice());
                i += 1;
            }
            proof {
                assert(found@.subrange(0, found@.len() as int) =~= found@);
            }
            w.finish()
        },
        _ => encode_raw_list(&found),
    };
    let r = Ok(Some(Response { packet_id: packet_of(wanted), data: payload }));
    proof {
        assert(hashes_served(data@, limit, wanted, answers, r));
    }
    r
}

fn packet_of(wanted: Wanted) -> (r: PacketId)
    ensures
        r == carrier(wanted),
{
    match wanted {
        Wanted::Bodies => BLOCK_BODIES_PACKET,
        Wanted::Receipts => RECEIPTS_PACKET,
        Wanted::NodeData => NODE_DATA_PACKET,
    }
}

/// Answers a request for block bodies: see `hashes_served`.
pub fn return_block_bodies<I: SyncIo>(io: &I, data: &[u8]) -> (r: Result<
    Option<Response>,
    PacketDecodeError,
>)
    ensures
        exists|answers: Seq<Option<Seq<u8>>>| #[trigger]
            hashes_served(data@, MAX_BODIES_TO_SEND, Wanted::Bodies, answers, r),
{
    serve_hashes(io, data, MAX_BODIES_TO_SEND, Wanted::Bodies)
}

/// Answers a request for receipts: see `hashes_served`.
pub fn return_receipts<I: SyncIo>(io: &I, data: &[u8]) -> (r: Result<
    Option<Response>,
    PacketDecodeError,
>)
    ensures
        exists|answers: Seq<Option<Seq<u8>>>| #[trigger]
            hashes_served(data@, MAX_RECEIPTS_HEADERS_TO_SEND, Wanted::Receipts, answers, r),
{
    serve_hashes(io, data, MAX_RECEIPTS_HEADERS_TO_SEND, Wanted::Receipts)
}

/// Answers a request for state nodes: see `hashes_served`.
pub fn return_node_data<I: SyncIo>(io: &I, data: &[u8]) -> (r: Result<
    Option<Response>,
    PacketDecodeError,
>)
    ensures
        exists|answers: Seq<Option<Seq<u8>>>| #[trigger]
            hashes_served(data@, MAX_NODE_DATA_TO_SEND, Wanted::NodeData, answers, r),
{
    serve_hashes(io, data, MAX_NODE_DATA_TO_SEND, Wanted::NodeData)
}

/// The step from one requested header to the next.
pub open spec fn spec_step(skip: u64) -> u64 {
    if skip == u64::MAX {
        u64::MAX
    } else {
        (skip + 1) as u64
    }
}

/// The most headers that are sent for a request that asks for `max_headers`.
pub open spec fn spec_header_limit(max_headers: u64) -> usize {
    if max_headers < MAX_HEADERS_TO_SEND {
        max_headers as usize
    } else {
        MAX_HEADERS_TO_SEND
    }
}

/// The number of the first header that is looked up: going down from above
/// the best block starts at the best block.
pub open spec fn walk_start(start: BlockNumber, reverse: bool, last: BlockNumber) -> BlockNumber {
    if reverse && start > last {
        last
    } else {
        start
    }
}

/// How the walk along the best chain goes.
pub struct Stride {
    pub reverse: bool,
    pub step: u64,
    pub last: BlockNumber,
    pub limit: usize,
}

/// How far a walk along the best chain has come: the number to look up
/// next, the headers found, and whether it goes on.
pub struct Walk {
    pub number: BlockNumber,
    pub found: Seq<Seq<u8>>,
    pub going: bool,
}

/// Whether one more header is looked up.
pub open spec fn walk_goes_on(w: Walk, stride: Stride) -> bool {
    w.going && w.number <= stride.last && w.found.len() < stride.limit
}

/// One look-up, answered with `answer`.  The walk ends where a header is
/// missing and where the next number would leave the range of numbers.
pub open spec fn walk_step(w: Walk, answer: Option<Seq<u8>>, stride: Stride) -> Walk {
    if !walk_goes_on(w, stride) {
        w
    } else {
        match answer {
            None => Walk { going: false, ..w },
            Some(header) => if stride.reverse {
                if w.number <= stride.step {
                    Walk { found: w.found.push(header), going: false, ..w }
                } else {
                    Walk {
                        number: (w.number - stride.step) as u64,
                        found: w.found.push(header),
                        going: true,
                    }
                }
            } else {
                if w.number + stride.step > u64::MAX {
                    Walk { found: w.found.push(header), going: false, ..w }
                } else {
                    Walk {
                        number: (w.number + stride.step) as u64,
                        found: w.found.push(header),
                        going: true,
                    }
                }
            },
        }
    }
}

/// The walk from `start` whose look-ups were answered with `answers`, in
/// turn.
pub open spec fn walked(start: BlockNumber, answers: Seq<Option<Seq<u8>>>, stride: Stride) -> Walk
    decreases answers.len(),
{
    if answers.len() == 0 {
        Walk { number: start, found: Seq::empty(), going: true }
    } else {
        walk_step(walked(start, answers.drop_last(), stride), answers.last(), stride)
    }
}

/// Whether `found` are the headers of a walk that has ended, where its
/// look-ups were answered with `answers`.
pub open spec fn walk_found(
    start: BlockNumber,
    answers: Seq<Option<Seq<u8>>>,
    stride: Stride,
    found: Seq<Seq<u8>>,
) -> bool {
    let w = walked(walk_start(start, stride.reverse, stride.last), answers, stride);
    !walk_goes_on(w, stride) && found == w.found
}

/// Looks up the headers of the blocks on the best chain from `start` on,
/// `step` apart, upwards or downwards, up to the best block, until one is
/// missing or `limit` are found.  A header that is kept for a fork block
/// takes the place of the chain's.
pub fn collect_headers<I: SyncIo>(
    io: &I,
    start: BlockNumber,
    reverse: bool,
    step: u64,
    last: BlockNumber,
    limit: usize,
) -> (r: Vec<Vec<u8>>)
    requires
        step >= 1,
    ensures
        r@.len() <= limit,
        start > last && !reverse ==> r@.len() == 0,
        exists|answers: Seq<Option<Seq<u8>>>| #[trigger]
            walk_found(start, answers, (Stride { reverse, step, last, limit }), raw_items(r@)),
{
    let ghost stride = Stride { reverse, step, last, limit };
    let mut number: BlockNumber = if reverse && start > last {
        last
    } else {
        start
    };
    let ghost first = number;
    let mut headers: Vec<Vec<u8>> = Vec::new();
    let mut going = true;
    let ghost mut answers: Seq<Option<Seq<u8>>> = Seq::empty();
    proof {
        assert(raw_items(headers@) =~= Seq::<Seq<u8>>::empty());
    }
    while going && number <= last && headers.len() < limit
        invariant
            headers@.len() <= limit,
            start > last && !reverse ==> number > last && headers@.len() == 0,
            step >= 1,
            stride == (Stride { reverse, step, last, limit }),
            walked(first, answers, stride) == (Walk {
                number,
                found: raw_items(headers@),
                going,
            }),
        decreases limit - headers@.len(), if going { 1int } else { 0int },
    {
        let found = match io.fork_header(number) {
            Some(header) => Some(header),
            None => io.block_header_by_number(number),
        };
        let ghost answer: Option<Seq<u8>> = if found is Some {
            Some(found->0@)
        } else {
            None
        };
        let ghost before = answers;
        proof {
            answers = answers.push(answer);
            assert(answers.drop_last() =~= before);
            assert(answers.last() == answer);
        }
        match found {
            Some(header) => {
                proof {
                    assert(raw_items(headers@.push(header)) =~= raw_items(headers@).push(header@));
                }
                headers.push(header);
                if reverse {
                    if number <= step {
                        going = false;
                    } else {
                        number = number - step;
                    }
                } else {
                    if number > u64::MAX - step {
                        going = false;
                    } else {
                        number = number + step;
                    }
                }
            },
            None => {
                going = false;
            },
        }
    }
    proof {
        assert(walk_found(start, answers, stride, raw_items(headers@)));
    }
    headers
}

/// Whether the four items of a request for headers can be read.
pub open spec fn header_request_readable(data: Seq<u8>) -> bool {
    &&& decoded_u64_at(data, 1) is Some
    &&& decoded_u64_at(data, 2) is Some
    &&& decoded_bool_at(data, 3) is Some
    &&& decoded_item_at(data, 0) is Some
}

/// Whether a request for headers names its first block by hash.
pub open spec fn starts_by_hash(data: Seq<u8>) -> bool {
    decoded_size(decoded_item_at(data, 0)->0) == 32
}

/// What the chain client said of the block that a request names by hash:
/// its header, its number, and the hash of the block with that number on
/// the best chain.
pub struct Named {
    pub header: Option<Seq<u8>>,
    pub number: Option<BlockNumber>,
    pub canonical: Option<H256>,
}

/// Whether `r` answers a request for the headers from block `start` on,
/// where the best block is `last` and the look-ups were answered with
/// `answers`.
pub open spec fn run_served(
    data: Seq<u8>,
    start: BlockNumber,
    last: BlockNumber,
    answers: Seq<Option<Seq<u8>>>,
    r: Result<Option<Response>, PacketDecodeError>,
) -> bool {
    let stride = Stride {
        reverse: decoded_bool_at(data, 3)->0,
        step: spec_step(decoded_u64_at(data, 2)->0),
        last,
        limit: spec_header_limit(decoded_u64_at(data, 1)->0),
    };
    exists|found: Seq<Seq<u8>>| #[trigger]
        walk_found(start, answers, stride, found) && is_list_answer(
            r,
            BLOCK_HEADERS_PACKET,
            found,
        )
}

/// Whether `r` answers a request for block headers, `[start, max, skip,
/// reverse]`, where the best block is `last`, the chain client said
/// `named` of a block named by hash and the look-ups along the chain were
/// answered with `answers`.
///
/// A request that cannot be read is an error.  For a hash that is unknown
/// the answer is empty; for one that is not on the best chain, or where one
/// header is asked for, it is that header; else, and for a number, it is
/// the headers of a walk along the best chain.
pub open spec fn headers_served(
    data: Seq<u8>,
    last: BlockNumber,
    named: Named,
    answers: Seq<Option<Seq<u8>>>,
    r: Result<Option<Response>, PacketDecodeError>,
) -> bool {
    if !header_request_readable(data) {
        r is Err
    } else if starts_by_hash(data) {
        match decoded_hash_at(data, 0) {
            None => r is Err,
            Some(hash) => if named.header is Some && named.number is Some {
                if decoded_u64_at(data, 1) == Some(1u64) || named.canonical != Some(hash) {
                    is_list_answer(r, BLOCK_HEADERS_PACKET, seq![named.header->0])
                } else {
                    run_served(data, named.number->0, last, answers, r)
                }
            } else {
                is_list_answer(r, BLOCK_HEADERS_PACKET, Seq::empty())
            },
        }
    } else {
        match decoded_u64_at(data, 0) {
            None => r is Err,
            Some(number) => run_served(data, number, last, answers, r),
        }
    }
}

/// Answers a request for block headers: see `headers_served`.
pub fn return_block_headers<I: SyncIo>(io: &I, data: &[u8]) -> (r: Result<
    Option<Response>,
    PacketDecodeError,
>)
    ensures
        exists|last: BlockNumber, named: Named, answers: Seq<Option<Seq<u8>>>| #[trigger]
            headers_served(data@, last, named, answers, r),
{
    let ghost nothing = Named { header: None, number: None, canonical: None };
    let ghost none = Seq::<Option<Seq<u8>>>::empty();
    let max_headers = match u64_at(data, 1) {
        Ok(v) => v,
        Err(e) => {
            let r = Err(e);
            proof {
                assert(headers_served(data@, 0, nothing, none, r));
            }
            return r;
        },
    };
    let skip = match u64_at(data, 2) {
        Ok(v) => v,
        Err(e) => {
            let r = Err(e);
            proof {
                assert(headers_served(data@, 0, nothing, none, r));
            }
            return r;
        },
    };
    let reverse = match bool_at(data, 3) {
        Ok(v) => v,
        Err(e) => {
            let r = Err(e);
            proof {
                assert(headers_served(data@, 0, nothing, none, r));
            }
            return r;
        },
    };
    let last = io.chain_info().best_block_number;
    let start_item = match item_at(data, 0) {
        Ok(v) => v,
        Err(e) => {
            let r = Err(e);
            proof {
                assert(headers_served(data@, 0, nothing, none, r));
            }
            return r;
        },
    };
    let ghost mut named = nothing;
    let number: BlockNumber = if size_of_item(start_item) == 32 {
        let hash = match hash_at(data, 0) {
            Ok(v) => v,
            Err(e) => {
                let r = Err(e);
                proof {
                    assert(headers_served(data@, last, nothing, none, r));
                }
                return r;
            },
        };
        let header = io.block_header(&hash);
        let number = io.block_number(&hash);
        match (header, number) {
            (Some(header), Some(number)) => {
                let on_chain = io.block_hash(number);
                proof {
                    named = Named {
                        header: Some(header@),
                        number: Some(number),
                        canonical: on_chain,
                    };
                }
                let canonical = match on_chain {
                    Some(h) => h == hash,
                    None => false,
                };
                if max_headers == 1 || !canonical {
                    let mut w = ListWriter::new(1);
                    w.raw(header.as_slice());
                    let r = Ok(
                        Some(Response { packet_id: BLOCK_HEADERS_PACKET, data: w.finish() }),
                    );
                    proof {
                        assert(w.items() =~= seq![header@]);
                        assert(headers_served(data@, last, named, none, r));
                    }
                    return r;
                }
                number
            },
            _ => {
                let r = Ok(
                    Some(Response { packet_id: BLOCK_HEADERS_PACKET, data: encode_empty_list() }),
                );
                proof {
                    assert(concat(Seq::<Seq<u8>>::empty()).len() == 0);
                    assert(headers_served(data@, last, nothing, none, r));
                }
                return r;
            },
        }
    } else {
        match u64_at(data, 0) {
            Ok(v) => v,
            Err(e) => {
                let r = Err(e);
                proof {
                    assert(headers_served(data@, last, nothing, none, r));
                }
                return r;
            },
        }
    };
    let limit: usize = if max_headers < MAX_HEADERS_TO_SEND as u64 {
        max_headers as usize
    } else {
        MAX_HEADERS_TO_SEND
    };
    let step: u64 = if skip == u64::MAX {
        u64::MAX
    } else {
        skip + 1
    };
    let headers = collect_headers(io, number, reverse, step, last, limit);
    let ghost stride = Stride { reverse, step, last, limit };
    let ghost answers = choose|answers: Seq<Option<Seq<u8>>>|
        walk_found(number, answers, stride, raw_items(headers@));
    let r = Ok(Some(Response { packet_id: BLOCK_HEADERS_PACKET, data: encode_raw_list(&headers) }));
    proof {
        assert(walk_found(number, answers, stride, raw_items(headers@)));
        assert(is_list_answer(r, BLOCK_HEADERS_PACKET, raw_items(headers@)));
        assert(run_served(data@, number, last, answers, r));
        assert(headers_served(data@, last, named, answers, r));
    }
    r
}

/// Whether `r` answers a request for the manifest of the snapshot on
/// offer, where the snapshot service offers `manifest`: no answer to a
/// request that is a list with items; else a list of the manifest, which is
/// empty where none is on offer.  The manifest's encoding is stated where
/// it has no more chunks of either kind than `MAX_MANIFEST_CHUNKS`.
pub open spec fn manifest_served(
    data: Seq<u8>,
    manifest: Option<ManifestView>,
    r: Result<Option<Response>, PacketDecodeError>,
) -> bool {
    if decoded_item_count(data) is Some && decoded_item_count(data) != Some(0nat) {
        r == Ok::<Option<Response>, PacketDecodeError>(None)
    } else {
        match manifest {
            Some(m) => exists|encoded: Seq<u8>| #[trigger]
                is_list_answer(r, SNAPSHOT_MANIFEST_PACKET, seq![encoded]) && (
                m.state_hashes.len() <= MAX_MANIFEST_CHUNKS && m.block_hashes.len()
                    <= MAX_MANIFEST_CHUNKS ==> encoded == encoded_list(manifest_items(m))),
            None => is_list_answer(r, SNAPSHOT_MANIFEST_PACKET, Seq::empty()),
        }
    }
}

/// Answers a request for the manifest of the snapshot on offer: see
/// `manifest_served`.
pub fn return_snapshot_manifest<I: SyncIo>(io: &I, data: &[u8]) -> (r: Result<
    Option<Response>,
    PacketDecodeError,
>)
    ensures
        exists|manifest: Option<ManifestView>| #[trigger] manifest_served(data@, manifest, r),
{
    let count = match item_count(data) {
        Ok(n) => n,
        Err(_) => 0,
    };
    if count != 0 {
        let r = Ok(None);
        proof {
            assert(manifest_served(data@, None, r));
        }
        return r;
    }
    match io.snapshot_manifest() {
        Some(manifest) => {
            let encoded = encode_manifest(&manifest);
            let mut w = ListWriter::new(1);
            w.raw(encoded.as_slice());
            let r = Ok(Some(Response { packet_id: SNAPSHOT_MANIFEST_PACKET, data: w.finish() }));
            proof {
                assert(w.items() =~= seq![encoded@]);
                assert(is_list_answer(r, SNAPSHOT_MANIFEST_PACKET, seq![encoded@]));
                assert(manifest_served(data@, Some(manifest@), r));
            }
            r
        },
        None => {
            let r = Ok(
                Some(Response { packet_id: SNAPSHOT_MANIFEST_PACKET, data: encode_empty_list() }),
            );
            proof {
                assert(concat(Seq::<Seq<u8>>::empty()).len() == 0);
                assert(manifest_served(data@, None, r));
            }
            r
        },
    }
}

/// Whether `r` answers a request for a chunk of the snapshot on offer,
/// where the snapshot service gave `chunk` for the hash: an error where the
/// hash cannot be read; else a list of the chunk as a byte string, which is
/// empty where the chunk is not there or too long for a list.
pub open spec fn chunk_served(
    data: Seq<u8>,
    chunk: Option<Seq<u8>>,
    r: Result<Option<Response>, PacketDecodeError>,
) -> bool {
    if decoded_hash_at(data, 0) is None {
        r is Err
    } else if chunk is Some && chunk->0.len() <= max_payload() {
        is_list_answer(r, SNAPSHOT_DATA_PACKET, seq![encoded_bytes(chunk->0)])
    } else {
        is_list_answer(r, SNAPSHOT_DATA_PACKET, Seq::empty())
    }
}

/// Answers a request for a chunk of the snapshot on offer: see
/// `chunk_served`.
pub fn return_snapshot_data<I: SyncIo>(io: &I, data: &[u8]) -> (r: Result<
    Option<Response>,
    PacketDecodeError,
>)
    ensures
        exists|chunk: Option<Seq<u8>>| #[trigger] chunk_served(data@, chunk, r),
{
    let hash = match hash_at(data, 0) {
        Ok(v) => v,
        Err(e) => {
            let r = Err(e);
            proof {
                assert(chunk_served(data@, None, r));
            }
            return r;
        },
    };
    let found = io.snapshot_chunk(&hash);
    let ghost chunk: Option<Seq<u8>> = if found is Some {
        Some(found->0@)
    } else {
        None
    };
    let payload = match found {
        Some(chunk) => {
            if chunk.len() <= 0xffff_ffff {
                let mut w = ListWriter::new(1);
                w.bytes(chunk.as_slice());
                proof {
                    assert(w.items() =~= seq![encoded_bytes(chunk@)]);
                }
                w.finish()
            } else {
                proof {
                    assert(concat(Seq::<Seq<u8>>::empty()).len() == 0);
                }
                encode_empty_list()
            }
        },
        None => {
            proof {
                assert(concat(Seq::<Seq<u8>>::empty()).len() == 0);
            }
            encode_empty_list()
        },
    };
    let r = Ok(Some(Response { packet_id: SNAPSHOT_DATA_PACKET, data: payload }));
    proof {
        assert(chunk_served(data@, chunk, r));
    }
    r
}

/// Whether `response` answers the request that the packet holds.
pub open spec fn is_answer_to(
    packet_id: PacketId,
    data: Seq<u8>,
    response: Result<Option<Response>, PacketDecodeError>,
) -> bool {
    if packet_id == GET_BLOCK_BODIES_PACKET {
        exists|answers: Seq<Option<Seq<u8>>>| #[trigger]
            hashes_served(data, MAX_BODIES_TO_SEND, Wanted::Bodies, answers, response)
    } else if packet_id == GET_BLOCK_HEADERS_PACKET {
        exists|last: BlockNumber, named: Named, answers: Seq<Option<Seq<u8>>>| #[trigger]
            headers_served(data, last, named, answers, response)
    } else if packet_id == GET_RECEIPTS_PACKET {
        exists|answers: Seq<Option<Seq<u8>>>| #[trigger]
            hashes_served(data, MAX_RECEIPTS_HEADERS_TO_SEND, Wanted::Receipts, answers, response)
    } else if packet_id == GET_NODE_DATA_PACKET {
        exists|answers: Seq<Option<Seq<u8>>>| #[trigger]
            hashes_served(data, MAX_NODE_DATA_TO_SEND, Wanted::NodeData, answers, response)
    } else if packet_id == GET_SNAPSHOT_MANIFEST_PACKET {
        exists|manifest: Option<ManifestView>| #[trigger] manifest_served(data, manifest, response)
    } else {
        exists|chunk: Option<Seq<u8>>| #[trigger] chunk_served(data, chunk, response)
    }
}

/// Whether the outbox `n` is the outbox `o` after `response` was dealt
/// with for the peer, with `r` as the outcome: an answer is queued for the
/// peer, an error is handed on, and nothing else is done.
pub open spec fn delivered(
    o: Seq<Action>,
    n: Seq<Action>,
    peer: PeerId,
    response: Result<Option<Response>, PacketDecodeError>,
    r: Result<(), PacketDecodeError>,
) -> bool {
    match response {
        Ok(Some(answer)) => r is Ok && n == o.push(
            Action::Send { peer, packet_id: answer.packet_id, data: answer.data },
        ),
        Ok(None) => r is Ok && n == o,
        Err(_) => r is Err && n == o,
    }
}

impl<D: BlockDownloader> ChainSync<D> {
    /// Takes a packet from a peer.  A request is answered from the chain
    /// client or the snapshot service, and the answer is queued for the
    /// peer; a consensus message is passed on; any other packet goes to
    /// `on_packet`.  An error says that the packet could not be decoded.
    pub fn dispatch_packet<I: SyncIo>(
        &mut self,
        io: &mut I,
        peer: PeerId,
        packet_id: PacketId,
        data: &[u8],
        now: Timestamp,
    ) -> (r: Result<(), PacketDecodeError>)
        requires
            old(self).wf(),
        ensures
            final(self).wf(),
            old(self).outbox@.is_prefix_of(final(self).outbox@),
            is_served(packet_id) ==> *final(self) == (ChainSync {
                outbox: final(self).outbox,
                ..*old(self)
            }) && (final(self).outbox@ == old(self).outbox@ || (final(self).outbox@.len() == old(
                self,
            ).outbox@.len() + 1 && final(self).outbox@.last().sends_kind(
                peer,
                answer_kind(packet_id),
            ) && r is Ok)),
            is_served(packet_id) ==> exists|response: Result<Option<Response>, PacketDecodeError>|
                is_answer_to(packet_id, data@, response) && #[trigger] delivered(
                    old(self).outbox@,
                    final(self).outbox@,
                    peer,
                    response,
                    r,
                ),
            packet_id == CONSENSUS_DATA_PACKET ==> *final(self) == *old(self) && r is Ok,
            !is_served(packet_id) && packet_id != CONSENSUS_DATA_PACKET
                ==> old(self).handles_packet(
                *final(self),
                peer,
                packet_id,
                data@,
                now,
                r,
            ),
            forall|other: PeerId|
                other != peer ==> final(self).peers.has(other) == old(self).peers.has(other),
    {
        let response = if packet_id == GET_BLOCK_BODIES_PACKET {
            return_block_bodies(io, data)
        } else if packet_id == GET_BLOCK_HEADERS_PACKET {
            return_block_headers(io, data)
        } else if packet_id == GET_RECEIPTS_PACKET {
            return_receipts(io, data)
        } else if packet_id == GET_NODE_DATA_PACKET {
            return_node_data(io, data)
        } else if packet_id == GET_SNAPSHOT_MANIFEST_PACKET {
            return_snapshot_manifest(io, data)
        } else if packet_id == GET_SNAPSHOT_DATA_PACKET {
            return_snapshot_data(io, data)
        } else if packet_id == CONSENSUS_DATA_PACKET {
            return Self::on_consensus_packet(io, peer, data);
        } else {
            return self.on_packet(io, peer, packet_id, data, now);
        };
        let ghost given = response;
        let r = match response {
            Ok(Some(response)) => {
                self.outbox.push(
                    Action::Send { peer, packet_id: response.packet_id, data: response.data },
                );
                Ok(())
            },
            Ok(None) => Ok(()),
            Err(e) => Err(e),
        };
        proof {
            assert(is_answer_to(packet_id, data@, given));
            assert(delivered(old(self).outbox@, self.outbox@, peer, given, r));
        }
        r
    }
}

} // verus!
