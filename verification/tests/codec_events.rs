//! The canonical event codec: exact wire form, round trips, and strict
//! rejection of anything that is not a canonical encoding.

use dex_pipeline::codec::{decode_pair_created, encode_pair_created};
use dex_pipeline::codec_sync::{decode_sync, encode_sync};
use dex_pipeline::model::{Address, PairCreatedEvent, SyncEvent, TxHash};

fn addr(b: u8) -> Address {
    Address::new(vec![b; 20]).unwrap()
}

fn hash(b: u8) -> TxHash {
    TxHash::new(vec![b; 32]).unwrap()
}

fn sample_pair_created() -> PairCreatedEvent {
    PairCreatedEvent {
        pair: addr(0xaa),
        token0: addr(0x11),
        token1: addr(0x22),
        transaction_hash: hash(0x33),
        block_number: 12345,
        block_timestamp: 1700000000,
    }
}

#[test]
fn pair_created_wire_form_is_exact() {
    let payload = encode_pair_created(&sample_pair_created());
    let expected = format!(
        "{{\"pair\":\"0x{}\",\"token0\":\"0x{}\",\"token1\":\"0x{}\",\"transaction_hash\":\"0x{}\",\"block_number\":\"12345\",\"block_timestamp\":\"1700000000\"}}",
        "aa".repeat(20),
        "11".repeat(20),
        "22".repeat(20),
        "33".repeat(32),
    );
    assert_eq!(String::from_utf8(payload).unwrap(), expected);
}

#[test]
fn pair_created_round_trip() {
    let e = sample_pair_created();
    let payload = encode_pair_created(&e);
    let back = decode_pair_created(&payload).unwrap();
    assert_eq!(back, e);
}

#[test]
fn pair_created_rejects_tampered_payloads() {
    let e = sample_pair_created();
    let payload = encode_pair_created(&e);
    // flipping any byte of the fixed structure breaks the decode
    let mut broken = payload.clone();
    broken[0] = b'[';
    assert!(decode_pair_created(&broken).is_none());
    // an upper-case hex digit is not canonical
    let mut upper = payload.clone();
    upper[12] = b'A';
    assert!(decode_pair_created(&upper).is_none());
    // trailing garbage
    let mut longer = payload.clone();
    longer.push(b' ');
    assert!(decode_pair_created(&longer).is_none());
    // truncation
    let mut shorter = payload.clone();
    shorter.pop();
    assert!(decode_pair_created(&shorter).is_none());
    assert!(decode_pair_created(&Vec::new()).is_none());
}

#[test]
fn pair_created_rejects_non_canonical_numbers() {
    let text = format!(
        "{{\"pair\":\"0x{}\",\"token0\":\"0x{}\",\"token1\":\"0x{}\",\"transaction_hash\":\"0x{}\",\"block_number\":\"012345\",\"block_timestamp\":\"1700000000\"}}",
        "aa".repeat(20),
        "11".repeat(20),
        "22".repeat(20),
        "33".repeat(32),
    );
    assert!(decode_pair_created(&text.into_bytes()).is_none());
}

fn sample_sync() -> SyncEvent {
    SyncEvent {
        pair: addr(0xaa),
        reserve0: 2_000_000_000_000_000_000,
        reserve1: 4_000_000,
        transaction_hash: hash(0x44),
        block_number: 999,
        block_timestamp: 1700000001,
    }
}

#[test]
fn sync_wire_form_is_exact() {
    let payload = encode_sync(&sample_sync());
    let expected = format!(
        "{{\"pair\":\"0x{}\",\"reserve0\":\"2000000000000000000\",\"reserve1\":\"4000000\",\"transaction_hash\":\"0x{}\",\"block_number\":\"999\",\"block_timestamp\":\"1700000001\"}}",
        "aa".repeat(20),
        "44".repeat(32),
    );
    assert_eq!(String::from_utf8(payload).unwrap(), expected);
}

#[test]
fn sync_round_trip() {
    let e = sample_sync();
    let payload = encode_sync(&e);
    let back = decode_sync(&payload).unwrap();
    assert_eq!(back, e);
}

#[test]
fn sync_round_trip_extreme_reserves() {
    let e = SyncEvent {
        pair: addr(0x01),
        reserve0: (1u128 << 112) - 1,
        reserve1: 0,
        transaction_hash: hash(0x00),
        block_number: 0,
        block_timestamp: 0,
    };
    let payload = encode_sync(&e);
    let back = decode_sync(&payload).unwrap();
    assert_eq!(back, e);
}

#[test]
fn sync_rejects_reserves_beyond_112_bits() {
    // 2^112 itself is one too many
    let text = format!(
        "{{\"pair\":\"0x{}\",\"reserve0\":\"5192296858534827628530496329220096\",\"reserve1\":\"4000000\",\"transaction_hash\":\"0x{}\",\"block_number\":\"999\",\"block_timestamp\":\"1700000001\"}}",
        "aa".repeat(20),
        "44".repeat(32),
    );
    assert!(decode_sync(&text.into_bytes()).is_none());
}

#[test]
fn sync_and_pair_created_payloads_do_not_cross_decode() {
    let pc = encode_pair_created(&sample_pair_created());
    let sy = encode_sync(&sample_sync());
    assert!(decode_sync(&pc).is_none());
    assert!(decode_pair_created(&sy).is_none());
}
