//! The enrichment cache and the per-service message steps: round trip,
//! idempotence, the missing-pair retry path, and the zero-reserve edge.

use dex_pipeline::codec_sync::encode_sync;
use dex_pipeline::delivery::Disposition;
use dex_pipeline::hexfmt::canonical_key;
use dex_pipeline::model::{Address, Pair, PairCreatedEvent, SyncEvent, Token, TxHash};
use dex_pipeline::pipeline::{enricher_step, injector_step};
use dex_pipeline::price::compute;
use dex_pipeline::store::PairStore;
use dex_pipeline::codec::encode_pair_created;

fn addr(b: u8) -> Address {
    Address::new(vec![b; 20]).unwrap()
}

fn token(addr_byte: u8, decimals: u8, symbol: &str) -> Token {
    Token::new(addr(addr_byte), decimals, symbol.as_bytes().to_vec(), b"1000".to_vec()).unwrap()
}

fn created_event() -> PairCreatedEvent {
    PairCreatedEvent {
        pair: addr(0xaa),
        token0: addr(0x11),
        token1: addr(0x22),
        transaction_hash: TxHash::new(vec![0x33; 32]).unwrap(),
        block_number: 1,
        block_timestamp: 2,
    }
}

fn sync_event(reserve0: u128, reserve1: u128) -> SyncEvent {
    SyncEvent {
        pair: addr(0xaa),
        reserve0,
        reserve1,
        transaction_hash: TxHash::new(vec![0x44; 32]).unwrap(),
        block_number: 999,
        block_timestamp: 1700000001,
    }
}

#[test]
fn enrich_then_get_round_trips() {
    let mut store = PairStore::new();
    let e = created_event();
    store.enrich(&e, token(0x11, 18, "WETH"), token(0x22, 6, "USDC"));
    let key = canonical_key(&e.pair);
    let p = store.get(&key).expect("the enriched pair must be served");
    assert_eq!(p.address, e.pair);
    assert_eq!(p.token0.address, e.token0);
    assert_eq!(p.token1.address, e.token1);
}

#[test]
fn enrich_twice_is_idempotent() {
    let mut once = PairStore::new();
    let e = created_event();
    once.enrich(&e, token(0x11, 18, "WETH"), token(0x22, 6, "USDC"));
    let mut twice = PairStore::new();
    twice.enrich(&e, token(0x11, 18, "WETH"), token(0x22, 6, "USDC"));
    twice.enrich(&e, token(0x11, 18, "WETH"), token(0x22, 6, "USDC"));
    assert_eq!(twice.entries.len(), once.entries.len());
    let key = canonical_key(&e.pair);
    assert_eq!(twice.get(&key).unwrap(), once.get(&key).unwrap());
}

#[test]
fn put_overwrites_last_writer_wins() {
    let mut store = PairStore::new();
    let e = created_event();
    store.enrich(&e, token(0x11, 18, "OLD"), token(0x22, 6, "USDC"));
    store.enrich(&e, token(0x11, 18, "NEW"), token(0x22, 6, "USDC"));
    let key = canonical_key(&e.pair);
    assert_eq!(store.entries.len(), 1);
    assert_eq!(store.get(&key).unwrap().token0.symbol, b"NEW".to_vec());
}

#[test]
fn enricher_step_commits_on_resolution() {
    let mut store = PairStore::new();
    let payload = encode_pair_created(&created_event());
    let d = enricher_step(
        &mut store,
        &payload,
        Some((token(0x11, 18, "WETH"), token(0x22, 6, "USDC"))),
    );
    assert_eq!(d, Disposition::Ack);
    assert_eq!(store.entries.len(), 1);
}

#[test]
fn enricher_step_redelivers_on_failed_resolution() {
    let mut store = PairStore::new();
    let payload = encode_pair_created(&created_event());
    let d = enricher_step(&mut store, &payload, None);
    assert_eq!(d, Disposition::Redeliver);
    assert_eq!(store.entries.len(), 0);
}

#[test]
fn enricher_step_redelivers_on_mismatched_resolution() {
    let mut store = PairStore::new();
    let payload = encode_pair_created(&created_event());
    // the resolver answered for the wrong addresses
    let d = enricher_step(
        &mut store,
        &payload,
        Some((token(0x99, 18, "WETH"), token(0x22, 6, "USDC"))),
    );
    assert_eq!(d, Disposition::Redeliver);
    assert_eq!(store.entries.len(), 0);
}

#[test]
fn enricher_step_drops_undecodable_payloads() {
    let mut store = PairStore::new();
    let d = enricher_step(
        &mut store,
        &b"not json".to_vec(),
        Some((token(0x11, 18, "WETH"), token(0x22, 6, "USDC"))),
    );
    assert_eq!(d, Disposition::Ack);
    assert_eq!(store.entries.len(), 0);
}

#[test]
fn missing_pair_is_redelivered_then_priced_once_enriched() {
    let mut store = PairStore::new();
    let payload = encode_sync(&sync_event(2_000_000_000_000_000_000, 4_000_000));
    // the pair is not enriched yet: no tick, no acknowledgment
    let (d, tick) = injector_step(&store, &payload);
    assert_eq!(d, Disposition::Redeliver);
    assert!(tick.is_none());
    // enrichment catches up; redelivery of the same payload yields
    // exactly one tick
    store.enrich(&created_event(), token(0x11, 18, "WETH"), token(0x22, 6, "USDC"));
    let (d, tick) = injector_step(&store, &payload);
    assert_eq!(d, Disposition::Ack);
    let tick = tick.expect("an enriched pair must be priced");
    assert_eq!(tick.pair_address, addr(0xaa));
}

#[test]
fn zero_reserve_is_acknowledged_without_a_tick() {
    let mut store = PairStore::new();
    store.enrich(&created_event(), token(0x11, 18, "WETH"), token(0x22, 6, "USDC"));
    let payload = encode_sync(&sync_event(0, 4_000_000));
    let (d, tick) = injector_step(&store, &payload);
    assert_eq!(d, Disposition::Ack);
    assert!(tick.is_none());
}

#[test]
fn injector_drops_undecodable_payloads() {
    let store = PairStore::new();
    let (d, tick) = injector_step(&store, &b"{}".to_vec());
    assert_eq!(d, Disposition::Ack);
    assert!(tick.is_none());
}

#[test]
fn decimal_scales_are_normalized_exactly() {
    // token0 has 18 decimals, token1 has 6; reserves of 2 units and
    // 4 units give one unit of token0 worth exactly two of token1
    let pair = Pair {
        address: addr(0xaa),
        token0: token(0x11, 18, "WETH"),
        token1: token(0x22, 6, "USDC"),
    };
    let tick = compute(&sync_event(2_000_000_000_000_000_000, 4_000_000), &pair).unwrap();
    assert_eq!(tick.token0_token1_e18, b"2000000000000000000".to_vec());
    assert_eq!(tick.token1_token0_e18, b"500000000000000000".to_vec());
    let as_float =
        String::from_utf8(tick.token0_token1_e18.clone()).unwrap().parse::<f64>().unwrap() / 1e18;
    assert_eq!(as_float, 2.0);
}

#[test]
fn compute_handles_negative_decimal_difference() {
    // token0 has fewer decimals than token1
    let pair = Pair {
        address: addr(0xaa),
        token0: token(0x11, 6, "USDC"),
        token1: token(0x22, 18, "WETH"),
    };
    // 4 units of token0, 2 units of token1: one token0 is half a token1
    let tick = compute(&sync_event(4_000_000, 2_000_000_000_000_000_000), &pair).unwrap();
    assert_eq!(tick.token0_token1_e18, b"500000000000000000".to_vec());
    assert_eq!(tick.token1_token0_e18, b"2000000000000000000".to_vec());
}

#[test]
fn reciprocal_rates_multiply_to_about_one() {
    let pair = Pair {
        address: addr(0xaa),
        token0: token(0x11, 18, "A"),
        token1: token(0x22, 18, "B"),
    };
    for (r0, r1) in [(3u128, 7u128), (1_234_567, 89), (5_192_296_858_534_827, 1)] {
        let tick = compute(&sync_event(r0, r1), &pair).unwrap();
        let a = String::from_utf8(tick.token0_token1_e18.clone()).unwrap().parse::<f64>().unwrap()
            / 1e18;
        let b = String::from_utf8(tick.token1_token0_e18.clone()).unwrap().parse::<f64>().unwrap()
            / 1e18;
        if a != 0.0 && b != 0.0 {
            assert!((a * b - 1.0).abs() < 1e-9, "{} * {} is too far from one", a, b);
        }
    }
}

#[test]
fn zero_ratio_maps_to_zero_reciprocal() {
    let pair = Pair {
        address: addr(0xaa),
        token0: token(0x11, 18, "A"),
        token1: token(0x22, 18, "B"),
    };
    let tick = compute(&sync_event(5, 0), &pair).unwrap();
    assert_eq!(tick.token0_token1_e18, b"0".to_vec());
    assert_eq!(tick.token1_token0_e18, b"0".to_vec());
}

#[test]
fn canonical_keys_are_prefixed_lower_hex() {
    let key = canonical_key(&addr(0xAB));
    assert_eq!(String::from_utf8(key).unwrap(), format!("0x{}", "ab".repeat(20)));
}

#[test]
fn get_misses_for_unknown_keys() {
    let store = PairStore::new();
    assert!(store.get(&b"0xdeadbeef".to_vec()).is_none());
}
