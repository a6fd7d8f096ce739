//! The event normalizer: raw chain logs in, canonical events out, and
//! deterministic rejection of anything else.

use dex_pipeline::model::{Address, TxHash};
use dex_pipeline::normalize::{
    decode_log, vec_pair_created_topic, vec_sync_topic, ChainEvent, RawLog,
};
use dex_pipeline::pipeline::source_step;
use dex_pipeline::codec::decode_pair_created;
use dex_pipeline::codec_sync::decode_sync;

fn addr(b: u8) -> Address {
    Address::new(vec![b; 20]).unwrap()
}

fn addr_word(b: u8) -> Vec<u8> {
    let mut w = vec![0u8; 12];
    w.extend(vec![b; 20]);
    w
}

fn pair_created_log() -> RawLog {
    let mut data = addr_word(0xaa);
    data.extend(vec![0u8; 31]);
    data.push(7); // allPairsLength, not part of the canonical event
    RawLog {
        address: addr(0xfa),
        topics: vec![vec_pair_created_topic(), addr_word(0x11), addr_word(0x22)],
        data,
        transaction_hash: Some(TxHash::new(vec![0x33; 32]).unwrap()),
        block_number: Some(12345),
        block_timestamp: Some(1700000000),
    }
}

fn sync_log() -> RawLog {
    let mut data = vec![0u8; 18];
    data.extend(2_000_000_000_000_000_000u128.to_be_bytes()[2..].to_vec()); // low 14 bytes
    data.extend(vec![0u8; 18]);
    data.extend(4_000_000u128.to_be_bytes()[2..].to_vec());
    RawLog {
        address: addr(0xaa),
        topics: vec![vec_sync_topic()],
        data,
        transaction_hash: Some(TxHash::new(vec![0x44; 32]).unwrap()),
        block_number: Some(999),
        block_timestamp: Some(1700000001),
    }
}

#[test]
fn decodes_pair_created_logs() {
    match decode_log(&pair_created_log()) {
        Some(ChainEvent::PairCreated(e)) => {
            assert_eq!(e.pair, addr(0xaa));
            assert_eq!(e.token0, addr(0x11));
            assert_eq!(e.token1, addr(0x22));
            assert_eq!(e.transaction_hash, TxHash::new(vec![0x33; 32]).unwrap());
            assert_eq!(e.block_number, 12345);
            assert_eq!(e.block_timestamp, 1700000000);
        },
        _ => panic!("expected a PairCreated event"),
    }
}

#[test]
fn decodes_sync_logs() {
    match decode_log(&sync_log()) {
        Some(ChainEvent::Sync(e)) => {
            assert_eq!(e.pair, addr(0xaa));
            assert_eq!(e.reserve0, 2_000_000_000_000_000_000);
            assert_eq!(e.reserve1, 4_000_000);
            assert_eq!(e.block_number, 999);
        },
        _ => panic!("expected a Sync event"),
    }
}

#[test]
fn missing_block_metadata_defaults_to_zero() {
    let mut log = pair_created_log();
    log.transaction_hash = None;
    log.block_number = None;
    log.block_timestamp = None;
    match decode_log(&log) {
        Some(ChainEvent::PairCreated(e)) => {
            assert_eq!(e.transaction_hash, TxHash::new(vec![0u8; 32]).unwrap());
            assert_eq!(e.block_number, 0);
            assert_eq!(e.block_timestamp, 0);
        },
        _ => panic!("expected a PairCreated event"),
    }
}

#[test]
fn unknown_signatures_are_dropped() {
    let mut log = pair_created_log();
    log.topics[0][0] ^= 0xff;
    assert!(decode_log(&log).is_none());
    assert!(source_step(&log).is_none());
}

#[test]
fn malformed_shapes_are_dropped() {
    // wrong topic count
    let mut log = pair_created_log();
    log.topics.pop();
    assert!(decode_log(&log).is_none());
    // nonzero address padding
    let mut log = pair_created_log();
    log.topics[1][0] = 1;
    assert!(decode_log(&log).is_none());
    // short data
    let mut log = sync_log();
    log.data.pop();
    assert!(decode_log(&log).is_none());
    // nonzero reserve padding
    let mut log = sync_log();
    log.data[0] = 1;
    assert!(decode_log(&log).is_none());
}

#[test]
fn source_step_payloads_decode_again() {
    match source_step(&pair_created_log()) {
        Some((ChainEvent::PairCreated(e), payload)) => {
            let back = decode_pair_created(&payload).unwrap();
            assert_eq!(back, e);
        },
        _ => panic!("expected a PairCreated payload"),
    }
    match source_step(&sync_log()) {
        Some((ChainEvent::Sync(e), payload)) => {
            let back = decode_sync(&payload).unwrap();
            assert_eq!(back, e);
        },
        _ => panic!("expected a Sync payload"),
    }
}
