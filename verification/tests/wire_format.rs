use multisig_core::account::AccountId;
use multisig_core::call::{hash, wrap_opaque, Call};
use multisig_core::codec::{put_compact, put_le, read_le, take_compact};
use multisig_core::derivation;
use subxt::codec::{Compact, Encode};
use subxt::sp_core::blake2_256;
use subxt::sp_runtime::AccountId32;
use subxt::WrapperKeepOpaque;

fn account(fill: u8) -> AccountId {
    AccountId::from_bytes([fill; 32])
}

fn compact_bytes(v: u128) -> Vec<u8> {
    let mut out = Vec::new();
    put_compact(&mut out, v);
    out
}

#[test]
fn compact_single_byte_values() {
    assert_eq!(compact_bytes(0), vec![0x00]);
    assert_eq!(compact_bytes(1), vec![0x04]);
    assert_eq!(compact_bytes(63), vec![0xfc]);
}

#[test]
fn compact_two_and_four_byte_values() {
    assert_eq!(compact_bytes(64), vec![0x01, 0x01]);
    assert_eq!(compact_bytes(16383), vec![0xfd, 0xff]);
    assert_eq!(compact_bytes(16384), vec![0x02, 0x00, 0x01, 0x00]);
    assert_eq!(compact_bytes((1 << 30) - 1), vec![0xfe, 0xff, 0xff, 0xff]);
}

#[test]
fn compact_wide_values() {
    assert_eq!(compact_bytes(1 << 30), vec![0x03, 0x00, 0x00, 0x00, 0x40]);
    assert_eq!(
        compact_bytes(10_000_000_000),
        vec![0x07, 0x00, 0xe4, 0x0b, 0x54, 0x02]
    );
    let mut widest = vec![0x33];
    widest.extend_from_slice(&[0xff; 16]);
    assert_eq!(compact_bytes(u128::MAX), widest);
}

#[test]
fn compact_agrees_with_the_ledger_codec() {
    let samples: [u128; 14] = [
        0,
        1,
        63,
        64,
        255,
        16383,
        16384,
        (1 << 30) - 1,
        1 << 30,
        u32::MAX as u128,
        (u32::MAX as u128) + 1,
        u64::MAX as u128,
        1 << 100,
        u128::MAX,
    ];
    for v in samples {
        assert_eq!(compact_bytes(v), Compact(v).encode());
    }
}

#[test]
fn compact_round_trips() {
    let samples: [u128; 8] = [0, 63, 64, 16384, 1 << 30, 1 << 64, 10_000_000_000, u128::MAX];
    for v in samples {
        let mut bytes = vec![0xaa];
        put_compact(&mut bytes, v);
        let end = bytes.len();
        bytes.push(0xbb);
        assert_eq!(take_compact(&bytes, 1), Some((v, end)));
    }
}

#[test]
fn compact_rejects_padded_forms() {
    // 1 written in two bytes, 64 written in four, 2^24 in five with a zero top byte.
    assert_eq!(take_compact(&[0x05, 0x00], 0), None);
    assert_eq!(take_compact(&[0x02, 0x01, 0x00, 0x00], 0), None);
    assert_eq!(take_compact(&[0x07, 0x00, 0x00, 0x00, 0x01, 0x00], 0), None);
    assert_eq!(take_compact(&[0x03, 0xff, 0xff, 0xff, 0x3f], 0), None);
}

#[test]
fn compact_rejects_truncated_input() {
    assert_eq!(take_compact(&[], 0), None);
    assert_eq!(take_compact(&[0x01], 0), None);
    assert_eq!(take_compact(&[0x02, 0x00, 0x01], 0), None);
    assert_eq!(take_compact(&[0x03, 0x00, 0x00, 0x00], 0), None);
    assert_eq!(take_compact(&[0x37], 0), None);
}

#[test]
fn little_endian_fixed_width() {
    let mut out = Vec::new();
    put_le(&mut out, 0x1234, 2);
    put_le(&mut out, 1_000_000_000_000, 8);
    assert_eq!(out[..2], [0x34, 0x12]);
    assert_eq!(out[2..], 1_000_000_000_000u64.to_le_bytes());
    assert_eq!(read_le(&out, 0, 2), 0x1234);
    assert_eq!(read_le(&out, 2, 8), 1_000_000_000_000);
}

#[test]
fn transfer_call_bytes() {
    let call = Call::Transfer { dest: account(7), value: 10_000_000_000 };
    let mut expected = vec![5u8, 0, 0];
    expected.extend_from_slice(&[7u8; 32]);
    expected.extend_from_slice(&[0x07, 0x00, 0xe4, 0x0b, 0x54, 0x02]);
    assert_eq!(call.encode(), expected);
    assert_eq!(Call::decode(&expected), Some(call));
}

#[test]
fn remark_call_round_trips() {
    let call = Call::Remark { remark: vec![1, 2, 3] };
    let bytes = call.encode();
    assert_eq!(bytes, vec![0, 1, 12, 1, 2, 3]);
    assert_eq!(Call::decode(&bytes), Some(call));
}

#[test]
fn decode_rejects_what_is_no_call() {
    assert_eq!(Call::decode(&[]), None);
    assert_eq!(Call::decode(&[5, 0, 0]), None);
    assert_eq!(Call::decode(&[0, 1, 12, 1, 2]), None);
    assert_eq!(Call::decode(&[0, 1, 12, 1, 2, 3, 4]), None);
    assert_eq!(Call::decode(&[9, 9, 9]), None);
    let mut trailing = Call::Transfer { dest: account(1), value: 5 }.encode();
    trailing.push(0);
    assert_eq!(Call::decode(&trailing), None);
}

#[test]
fn call_hash_is_the_ledger_hash_of_the_encoding() {
    let call = Call::Transfer { dest: account(9), value: 42 };
    let bytes = call.encode();
    assert_eq!(hash(&bytes).bytes, blake2_256(&bytes));
    assert_ne!(hash(&bytes).bytes.to_vec(), bytes[..32].to_vec());
    let wrapped = wrap_opaque(bytes.clone());
    assert_eq!(wrapped.hash(), hash(&bytes));
}

#[test]
fn equal_calls_hash_alike_whatever_their_capacity() {
    let mut roomy = Vec::with_capacity(64);
    roomy.extend_from_slice(b"pay the rent");
    let a = Call::Remark { remark: roomy };
    let b = Call::Remark { remark: b"pay the rent".to_vec() };
    assert_eq!(hash(&a.encode()), hash(&b.encode()));
    let c = Call::Remark { remark: b"pay the rent!".to_vec() };
    assert_ne!(a.encode(), c.encode());
}

#[test]
fn envelope_agrees_with_the_ledger_codec() {
    let inner = Call::Transfer { dest: account(3), value: 1 << 40 }.encode();
    let mut mine = Vec::new();
    wrap_opaque(inner.clone()).put(&mut mine);
    let theirs = WrapperKeepOpaque::<()>::from_encoded(inner).encode();
    assert_eq!(mine, theirs);
}

#[test]
fn derive_matches_the_ledger_formula() {
    let mut who = vec![account(9), account(1), account(200)];
    let id = derivation::derive(&who, 2);
    who.sort();
    let theirs: Vec<AccountId32> = who.iter().map(|a| AccountId32::new(a.bytes)).collect();
    let expected = (b"modlpy/utilisuba", theirs, 2u16).using_encoded(blake2_256);
    assert_eq!(id.bytes, expected);
}

#[test]
fn derive_is_order_independent() {
    let a = account(1);
    let b = account(2);
    let c = account(3);
    let first = derivation::derive(&vec![a, b, c], 2);
    assert_eq!(derivation::derive(&vec![a, c, b], 2), first);
    assert_eq!(derivation::derive(&vec![b, a, c], 2), first);
    assert_eq!(derivation::derive(&vec![b, c, a], 2), first);
    assert_eq!(derivation::derive(&vec![c, a, b], 2), first);
    assert_eq!(derivation::derive(&vec![c, b, a], 2), first);
}

#[test]
fn derive_depends_on_threshold_and_members() {
    let a = account(1);
    let b = account(2);
    assert_ne!(derivation::derive(&vec![a, b], 1), derivation::derive(&vec![a, b], 2));
    assert_ne!(derivation::derive(&vec![a, b], 2), derivation::derive(&vec![a, account(3)], 2));
    assert_ne!(derivation::derive(&vec![a], 1), derivation::derive(&vec![a, a], 1));
}

#[test]
fn derive_of_no_participants() {
    let expected = (b"modlpy/utilisuba", Vec::<AccountId32>::new(), 1u16).using_encoded(blake2_256);
    assert_eq!(derivation::derive(&Vec::new(), 1).bytes, expected);
}

#[test]
fn identifier_from_short_entropy_is_zero_padded() {
    let id = AccountId::from_entropy(&[1, 2, 3]);
    let mut expected = [0u8; 32];
    expected[0] = 1;
    expected[1] = 2;
    expected[2] = 3;
    assert_eq!(id.bytes, expected);
    let long = [9u8; 40];
    assert_eq!(AccountId::from_entropy(&long).bytes, [9u8; 32]);
}

#[test]
fn canonical_order_is_bytewise() {
    let mut low = [0u8; 32];
    low[31] = 255;
    let mut high = [0u8; 32];
    high[0] = 1;
    let low = AccountId::from_bytes(low);
    let high = AccountId::from_bytes(high);
    assert!(low.precedes(&high));
    assert!(!high.precedes(&low));
    assert!(!low.precedes(&low));
    assert!(low < high);
    assert!(low.same(&low));
    assert!(!low.same(&high));
}
