use chain_sync::codec::{
    bool_at, bytes_at, hash_at, hash_of_item, item_at, item_count, size_of_item, u256_at, u64_at,
    u8_at, ListWriter, PacketDecodeError,
};
use chain_sync::env::ManifestData;
use chain_sync::hashing::keccak;
use chain_sync::header::{collect_transactions, decode_header_number};
use chain_sync::manifest::{decode_hashes, decode_manifest, encode_manifest};
use chain_sync::packets::{
    encode_block, encode_empty_list, encode_hash_number, encode_hashes, encode_header_by_number,
    encode_headers_by_hash, encode_one_hash, encode_raw_list, encode_status,
};
use chain_sync::primitives::{H256, U256};
use chain_sync::propagator::{announce_block, announce_hashes, create_block_rlp, encode_new_hashes};

fn hash(n: u8) -> H256 {
    let mut b = [0u8; 32];
    for (i, x) in b.iter_mut().enumerate() {
        *x = n.wrapping_add(i as u8);
    }
    H256::from_bytes(&b)
}

#[test]
fn a_hash_is_its_bytes() {
    let mut b = [0u8; 32];
    for (i, x) in b.iter_mut().enumerate() {
        *x = 0xf0u8.wrapping_add(i as u8 * 7);
    }
    let h = H256::from_bytes(&b);
    assert_eq!(b, h.to_bytes());
    assert_eq!(0xf0f7fe050c131a21, h.w0);
    assert_eq!([0u8; 32], H256::zero().to_bytes());
    assert_ne!(hash(1), hash(2));
}

#[test]
fn numbers_of_256_bits_are_ordered_by_value() {
    let small = U256 { l0: u64::MAX, l1: u64::MAX, l2: u64::MAX, l3: 0 };
    let large = U256 { l0: 0, l1: 0, l2: 0, l3: 1 };
    assert!(large.gt(&small));
    assert!(!small.gt(&large));
    assert!(!large.gt(&large));
    assert!(U256 { l0: 1, l1: 2, l2: 0, l3: 0 }.gt(&U256 { l0: 2, l1: 1, l2: 0, l3: 0 }));
    assert!(U256::from_u64(5).gt(&U256::zero()));
    assert_eq!(U256 { l0: 7, l1: 0, l2: 0, l3: 0 }, U256::from_u64(7));
}

#[test]
fn keccak_of_known_inputs() {
    let empty = keccak(&[]);
    assert_eq!(
        [
            0xc5, 0xd2, 0x46, 0x01, 0x86, 0xf7, 0x23, 0x3c, 0x92, 0x7e, 0x7d, 0xb2, 0xdc, 0xc7,
            0x03, 0xc0, 0xe5, 0x00, 0xb6, 0x53, 0xca, 0x82, 0x27, 0x3b, 0x7b, 0xfa, 0xd8, 0x04,
            0x5d, 0x85, 0xa4, 0x70
        ],
        empty.to_bytes()
    );
    // The encoding of an empty list.
    let list = keccak(&[0xc0]);
    assert_eq!(0x1dcc4de8dec75d7a, list.w0);
    assert_eq!(0xf0a142fd40d49347, list.w3);
}

#[test]
fn lists_are_encoded_item_by_item() {
    assert_eq!(vec![0xc0], encode_empty_list());
    let mut w = ListWriter::new(3);
    w.uint(0);
    w.uint(0x7f);
    w.uint(0x80);
    assert_eq!(vec![0xc4, 0x80, 0x7f, 0x81, 0x80], w.finish());
    let mut w = ListWriter::new(2);
    w.bytes(b"cat");
    w.bytes(b"dog");
    assert_eq!(vec![0xc8, 0x83, b'c', b'a', b't', 0x83, b'd', b'o', b'g'], w.finish());
    let mut w = ListWriter::new(2);
    w.uint256(&U256 { l0: 0, l1: 1, l2: 0, l3: 0 });
    w.uint(0x0102_0304);
    assert_eq!(
        vec![0xcf, 0x89, 1, 0, 0, 0, 0, 0, 0, 0, 0, 0x84, 1, 2, 3, 4],
        w.finish()
    );
    // A payload of more than 55 bytes gets its length written out.
    let mut w = ListWriter::new(2);
    w.hash(&hash(1));
    w.raw(&[0x83, b'c', b'a', b't', 0x83, b'd', b'o', b'g', 0x83, b'c', b'o', b'w', 1, 2, 3, 4, 5, 6, 7, 8, 9, 10, 11]);
    let out = w.finish();
    assert_eq!(58, out.len());
    assert_eq!(&[0xf8, 56, 0xa0, 1, 2], &out[..5]);
    assert_eq!(11, out[57]);
    // A byte string of more than 55 bytes, too.
    let mut w = ListWriter::new(1);
    w.bytes(&[7u8; 300]);
    let out = w.finish();
    assert_eq!(&[0xf9, 0x01, 0x2f, 0xb9, 0x01, 0x2c, 7], &out[..7]);
    assert_eq!(306, out.len());
}

#[test]
fn requests_are_encoded() {
    assert_eq!(vec![0xc7, 0x83, 0x01, 0x00, 0x00, 0x01, 0x80, 0x80], encode_header_by_number(65536));
    let out = encode_headers_by_hash(&hash(3), 512, 63, true);
    assert_eq!(0xe6, out[0]);
    assert_eq!(0xa0, out[1]);
    assert_eq!(&hash(3).to_bytes()[..], &out[2..34]);
    assert_eq!(&[0x82, 0x02, 0x00, 0x3f, 0x01], &out[34..]);
    let out = encode_hashes(&vec![hash(1), hash(2)]);
    assert_eq!(68, out.len());
    assert_eq!(&[0xf8, 66, 0xa0, 1], &out[..4]);
    assert_eq!(&[0xa0, 2], &out[35..37]);
    assert_eq!(vec![0xc0], encode_hashes(&vec![]));
    let out = encode_one_hash(&hash(9));
    assert_eq!(34, out.len());
    assert_eq!(&[0xe1, 0xa0, 9], &out[..3]);
    let out = encode_hash_number(&hash(9), 300);
    assert_eq!(37, out.len());
    assert_eq!(&[0xe4, 0xa0, 9], &out[..3]);
    assert_eq!(&[0x82, 0x01, 0x2c], &out[34..]);
}

#[test]
fn an_announcement_of_three_hashes_has_107_bytes() {
    let out = encode_new_hashes(&vec![hash(1), hash(2), hash(3)], &vec![12, 13, 14]);
    assert_eq!(107, out.len());
    assert_eq!(&[0xf8, 105, 0xe2, 0xa0, 1], &out[..5]);
    assert_eq!(12, out[36]);
    assert_eq!(3, item_count(&out).unwrap());
    assert_eq!(hash(2), hash_at(item_at(&out, 1).unwrap(), 0).unwrap());
    assert_eq!(14, u64_at(item_at(&out, 2).unwrap(), 1).unwrap());
}

#[test]
fn a_block_is_announced_with_its_difficulty() {
    let block = vec![0xc3, 0xc0, 0xc0, 0xc0];
    let out = encode_block(&block, &U256::from_u64(0x1234));
    assert_eq!(vec![0xc7, 0xc3, 0xc0, 0xc0, 0xc0, 0x82, 0x12, 0x34], out);
    assert_eq!(vec![0xc2, 0xc0, 0x80], encode_raw_list(&vec![vec![0xc0], vec![0x80]]));
}

#[test]
fn a_status_has_five_or_seven_items() {
    let out = encode_status(63, 1, &U256::from_u64(17), &hash(1), &hash(2), None);
    assert_eq!(5, item_count(&out).unwrap());
    assert_eq!(63, u8_at(&out, 0).unwrap());
    assert_eq!(1, u64_at(&out, 1).unwrap());
    assert_eq!(U256::from_u64(17), u256_at(&out, 2).unwrap());
    assert_eq!(hash(1), hash_at(&out, 3).unwrap());
    assert_eq!(hash(2), hash_at(&out, 4).unwrap());
    assert!(hash_at(&out, 5).is_err());
    let out = encode_status(2, 1, &U256::from_u64(17), &hash(1), &hash(2), Some((hash(3), 9)));
    assert_eq!(7, item_count(&out).unwrap());
    assert_eq!(hash(3), hash_at(&out, 5).unwrap());
    assert_eq!(9, u64_at(&out, 6).unwrap());
}

#[test]
fn items_are_decoded() {
    let data = vec![0xc8, 0x83, b'c', b'a', b't', 0x83, b'd', b'o', b'g'];
    assert_eq!(Ok(2), item_count(&data));
    assert_eq!(&[0x83, b'd', b'o', b'g'], item_at(&data, 1).unwrap());
    assert_eq!(b"cat".to_vec(), bytes_at(&data, 0).unwrap());
    assert_eq!(Err(PacketDecodeError::Malformed), item_at(&data, 2).map(|i| i.to_vec()));
    assert_eq!(3, size_of_item(item_at(&data, 0).unwrap()));
    assert_eq!(0, size_of_item(&data));
    // What is no list has no items.
    assert_eq!(Err(PacketDecodeError::Malformed), item_count(&[0x83, b'c', b'a', b't']));
    assert_eq!(Err(PacketDecodeError::Malformed), item_count(&[]));
    assert!(item_at(&[], 0).is_err());
}

#[test]
fn numbers_are_decoded() {
    let data = vec![0xc9, 0x80, 0x7f, 0x81, 0x80, 0x82, 0x01, 0x00, 0x00, 0x01];
    assert_eq!(Ok(0), u8_at(&data, 0));
    assert_eq!(Ok(0x7f), u8_at(&data, 1));
    assert_eq!(Ok(0x80), u8_at(&data, 2));
    assert_eq!(Err(PacketDecodeError::Malformed), u8_at(&data, 3));
    assert_eq!(Ok(256), u64_at(&data, 3));
    assert_eq!(Ok(U256::from_u64(256)), u256_at(&data, 3));
    // A single zero byte is no number.
    assert_eq!(Err(PacketDecodeError::Malformed), u64_at(&data, 4));
    assert_eq!(Ok(true), bool_at(&data, 5));
    assert_eq!(Ok(false), bool_at(&data, 0));
    assert_eq!(Err(PacketDecodeError::Malformed), bool_at(&data, 3));
    // Nine bytes are too many for 64 bits, not for 256.
    let data = vec![0xca, 0x89, 1, 0, 0, 0, 0, 0, 0, 0, 2];
    assert!(u64_at(&data, 0).is_err());
    assert_eq!(Ok(U256 { l0: 2, l1: 1, l2: 0, l3: 0 }), u256_at(&data, 0));
    // A list is no number.
    assert!(u256_at(&[0xc1, 0xc0], 0).is_err());
}

#[test]
fn hashes_are_decoded() {
    let out = encode_hashes(&vec![hash(1), hash(2)]);
    assert_eq!(Ok(hash(2)), hash_at(&out, 1));
    assert_eq!(Ok(hash(1)), hash_of_item(item_at(&out, 0).unwrap()));
    assert_eq!(Ok(vec![hash(1), hash(2)]), decode_hashes(&out));
    // 31 bytes are no hash.
    let mut short = vec![0xe0, 0x9f];
    short.extend_from_slice(&[1u8; 31]);
    assert!(hash_at(&short, 0).is_err());
    assert!(decode_hashes(&short).is_err());
    // What is no list holds no hashes.
    assert_eq!(Ok(vec![]), decode_hashes(&[0x80]));
    assert_eq!(Ok(vec![]), decode_hashes(&[]));
}

fn manifest() -> ManifestData {
    ManifestData {
        version: 2,
        state_hashes: vec![hash(1), hash(2)],
        block_hashes: vec![hash(3)],
        state_root: hash(4),
        block_number: 40_010,
        block_hash: hash(5),
    }
}

#[test]
fn a_manifest_is_encoded_and_decoded() {
    let m = manifest();
    let raw = encode_manifest(&m);
    assert_eq!(6, item_count(&raw).unwrap());
    assert_eq!(2, u64_at(&raw, 0).unwrap());
    assert_eq!(encode_hashes(&m.state_hashes), item_at(&raw, 1).unwrap().to_vec());
    assert_eq!(40_010, u64_at(&raw, 4).unwrap());
    let back = decode_manifest(&raw).unwrap();
    assert_eq!(2, back.version);
    assert_eq!(m.state_hashes, back.state_hashes);
    assert_eq!(m.block_hashes, back.block_hashes);
    assert_eq!(m.state_root, back.state_root);
    assert_eq!(m.block_number, back.block_number);
    assert_eq!(m.block_hash, back.block_hash);
}

#[test]
fn a_manifest_of_five_items_is_of_version_one() {
    let m = manifest();
    let mut w = ListWriter::new(5);
    w.raw(&encode_hashes(&m.state_hashes));
    w.raw(&encode_hashes(&m.block_hashes));
    w.hash(&m.state_root);
    w.uint(m.block_number);
    w.hash(&m.block_hash);
    let back = decode_manifest(&w.finish()).unwrap();
    assert_eq!(1, back.version);
    assert_eq!(m.block_hashes, back.block_hashes);
    assert_eq!(m.block_hash, back.block_hash);
}

#[test]
fn what_is_no_manifest_is_not_decoded() {
    assert_eq!(Err(PacketDecodeError::Malformed), decode_manifest(&[]).map(|m| m.version));
    assert!(decode_manifest(&[0x83, b'c', b'a', b't']).is_err());
    assert!(decode_manifest(&[0xc0]).is_err());
    let mut w = ListWriter::new(6);
    w.uint(2);
    w.raw(&[0xc0]);
    w.raw(&[0xc0]);
    w.hash(&hash(1));
    w.hash(&hash(1));
    w.hash(&hash(1));
    assert!(decode_manifest(&w.finish()).is_err());
}

fn header(number: u64, seal: usize) -> Vec<u8> {
    let mut w = ListWriter::new(13 + seal);
    w.hash(&hash(1));
    w.hash(&hash(2));
    w.bytes(&[0u8; 20]);
    w.hash(&hash(3));
    w.hash(&hash(4));
    w.hash(&hash(5));
    w.bytes(&[0u8; 256]);
    w.uint(1000);
    w.uint(number);
    w.uint(8_000_000);
    w.uint(21_000);
    w.uint(1_500_000_000);
    w.bytes(b"extra");
    for _ in 0..seal {
        w.raw(&[0x83, 1, 2, 3]);
    }
    w.finish()
}

#[test]
fn the_number_is_read_from_a_header() {
    assert_eq!(Ok(0), decode_header_number(&header(0, 0)));
    assert_eq!(Ok(4_000_000), decode_header_number(&header(4_000_000, 2)));
}

#[test]
fn what_is_no_header_has_no_number() {
    assert_eq!(Err(PacketDecodeError::Malformed), decode_header_number(&[]));
    assert!(decode_header_number(&[0xc0]).is_err());
    // Twelve fields are one too few.
    let mut w = ListWriter::new(12);
    w.hash(&hash(1));
    w.hash(&hash(2));
    w.bytes(&[0u8; 20]);
    w.hash(&hash(3));
    w.hash(&hash(4));
    w.hash(&hash(5));
    w.bytes(&[0u8; 256]);
    w.uint(1000);
    w.uint(7);
    w.uint(8_000_000);
    w.uint(21_000);
    w.uint(1_500_000_000);
    assert!(decode_header_number(&w.finish()).is_err());
    // An author of 21 bytes.
    let mut w = ListWriter::new(13);
    w.hash(&hash(1));
    w.hash(&hash(2));
    w.bytes(&[0u8; 21]);
    w.hash(&hash(3));
    w.hash(&hash(4));
    w.hash(&hash(5));
    w.bytes(&[0u8; 256]);
    w.uint(1000);
    w.uint(7);
    w.uint(8_000_000);
    w.uint(21_000);
    w.uint(1_500_000_000);
    w.bytes(b"extra");
    assert!(decode_header_number(&w.finish()).is_err());
}

#[test]
fn transactions_that_are_too_large_are_left_out() {
    let small = vec![0xc3, 1, 2, 3];
    let mut large = ListWriter::new(1);
    large.bytes(&[1u8; 307_200]);
    let large = large.finish();
    // At the limit a transaction is taken.
    let mut limit = ListWriter::new(1);
    limit.bytes(&[1u8; 307_200 - 8]);
    let limit = limit.finish();
    assert_eq!(307_200, limit.len());
    let packet = encode_raw_list(&vec![small.clone(), large, limit.clone(), small.clone()]);
    assert_eq!(Ok(vec![small.clone(), limit, small]), collect_transactions(&packet));
    assert_eq!(Ok(vec![]), collect_transactions(&[0xc0]));
    assert_eq!(Err(PacketDecodeError::Malformed), collect_transactions(&[0x05]));
}

#[test]
fn hashes_are_announced_where_every_number_is_known() {
    let hashes = vec![hash(1), hash(2), hash(3)];
    let told = announce_hashes(&hashes, &vec![Some(12), Some(13), Some(14)]);
    assert_eq!(Some(encode_new_hashes(&hashes, &vec![12, 13, 14])), told);
    assert_eq!(None, announce_hashes(&hashes, &vec![Some(12), None, Some(14)]));
    assert_eq!(None, announce_hashes(&hashes, &vec![Some(12), Some(13), None]));
    assert_eq!(None, announce_hashes(&vec![], &vec![]));
    let one = announce_hashes(&vec![hash(7)], &vec![Some(0)]).unwrap();
    assert_eq!(1, item_count(&one).unwrap());
}

#[test]
fn a_block_is_announced_where_it_is_there_with_its_difficulty() {
    let block = vec![0xc1, 0x05];
    let told = announce_block(Some(block.clone()), Some(U256::from_u64(9)));
    assert_eq!(Some(create_block_rlp(&block, U256::from_u64(9))), told);
    assert_eq!(Some(vec![0xc3, 0xc1, 0x05, 0x09]), told);
    assert_eq!(None, announce_block(None, Some(U256::from_u64(9))));
    assert_eq!(None, announce_block(Some(block), None));
    assert_eq!(None, announce_block(None, None));
}
