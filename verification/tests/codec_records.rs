//! The token, pair, and price-tick record codecs.

use dex_pipeline::codec_pair::{decode_pair, encode_pair, encode_token, parse_token};
use dex_pipeline::codec_tick::{decode_price_tick, encode_price_tick};
use dex_pipeline::model::{Address, Pair, PriceTick, Token, TxHash};

fn addr(b: u8) -> Address {
    Address::new(vec![b; 20]).unwrap()
}

fn token(addr_byte: u8, decimals: u8, symbol: &str, supply: &str) -> Token {
    Token::new(addr(addr_byte), decimals, symbol.as_bytes().to_vec(), supply.as_bytes().to_vec())
        .unwrap()
}

fn sample_pair() -> Pair {
    Pair {
        address: addr(0xaa),
        token0: token(0x11, 18, "WETH", "1000000000000000000000000"),
        token1: token(0x22, 6, "USDC", "5000000000000"),
    }
}

#[test]
fn token_wire_form_is_exact() {
    let t = token(0x11, 18, "WETH", "1000");
    let bytes = encode_token(&t);
    let expected = format!(
        "{{\"address\":\"0x{}\",\"decimals\":\"18\",\"symbol\":\"WETH\",\"total_supply\":\"1000\"}}",
        "11".repeat(20)
    );
    assert_eq!(String::from_utf8(bytes).unwrap(), expected);
}

#[test]
fn token_round_trip_via_parse() {
    let t = token(0x11, 0, "", "0");
    let bytes = encode_token(&t);
    let (back, used) = parse_token(&bytes, 0).unwrap();
    assert_eq!(back, t);
    assert_eq!(used, bytes.len());
}

#[test]
fn token_constructor_sanitizes_symbols() {
    let raw = b"WE\"TH\\x\n".to_vec();
    let t = Token::new(addr(0x11), 18, raw, b"1".to_vec()).unwrap();
    assert_eq!(t.symbol, b"WETHx".to_vec());
}

#[test]
fn token_constructor_rejects_bad_supply() {
    assert!(Token::new(addr(0x11), 18, b"A".to_vec(), b"01".to_vec()).is_none());
    assert!(Token::new(addr(0x11), 18, b"A".to_vec(), b"".to_vec()).is_none());
    assert!(Token::new(addr(0x11), 18, b"A".to_vec(), b"12x".to_vec()).is_none());
    // 79 digits are more than a 256-bit value can take
    let wide = vec![b'9'; 79];
    assert!(Token::new(addr(0x11), 18, b"A".to_vec(), wide).is_none());
    let widest_allowed = vec![b'9'; 78];
    assert!(Token::new(addr(0x11), 18, b"A".to_vec(), widest_allowed).is_some());
}

#[test]
fn pair_round_trip() {
    let p = sample_pair();
    let bytes = encode_pair(&p);
    let back = decode_pair(&bytes).unwrap();
    assert_eq!(back, p);
}

#[test]
fn pair_rejects_tampering() {
    let p = sample_pair();
    let bytes = encode_pair(&p);
    let mut broken = bytes.clone();
    let last = broken.len() - 1;
    broken[last] = b' ';
    assert!(decode_pair(&broken).is_none());
    let mut shorter = bytes.clone();
    shorter.pop();
    assert!(decode_pair(&shorter).is_none());
}

#[test]
fn price_tick_wire_form_is_exact() {
    let tick = PriceTick {
        pair_address: addr(0xaa),
        token0_address: addr(0x11),
        token0_reserve: 2_000_000_000_000_000_000,
        token0_symbol: b"WETH".to_vec(),
        token1_address: addr(0x22),
        token1_reserve: 4_000_000,
        token1_symbol: b"USDC".to_vec(),
        token0_token1_e18: b"2000000000000000000".to_vec(),
        token1_token0_e18: b"500000000000000000".to_vec(),
        transaction_hash: TxHash::new(vec![0x33; 32]).unwrap(),
        block_number: 999,
        block_timestamp: 1700000001,
    };
    let bytes = encode_price_tick(&tick);
    let expected = format!(
        "{{\"pair_address\":\"0x{}\",\"token0_address\":\"0x{}\",\"token0_reserve\":\"2000000000000000000\",\"token0_symbol\":\"WETH\",\"token1_address\":\"0x{}\",\"token1_reserve\":\"4000000\",\"token1_symbol\":\"USDC\",\"token0_token1_e18\":\"2000000000000000000\",\"token1_token0_e18\":\"500000000000000000\",\"transaction_hash\":\"0x{}\",\"block_number\":\"999\",\"block_timestamp\":\"1700000001\"}}",
        "aa".repeat(20),
        "11".repeat(20),
        "22".repeat(20),
        "33".repeat(32),
    );
    assert_eq!(String::from_utf8(bytes).unwrap(), expected);
}

#[test]
fn price_tick_round_trip() {
    let tick = PriceTick {
        pair_address: addr(0xaa),
        token0_address: addr(0x11),
        token0_reserve: 2_000_000_000_000_000_000,
        token0_symbol: b"WETH".to_vec(),
        token1_address: addr(0x22),
        token1_reserve: 4_000_000,
        token1_symbol: b"USDC".to_vec(),
        token0_token1_e18: b"2000000000000000000".to_vec(),
        token1_token0_e18: b"500000000000000000".to_vec(),
        transaction_hash: TxHash::new(vec![0x33; 32]).unwrap(),
        block_number: 999,
        block_timestamp: 1700000001,
    };
    let bytes = encode_price_tick(&tick);
    let back = decode_price_tick(&bytes).unwrap();
    assert_eq!(back, tick);
}

#[test]
fn price_tick_rejects_tampering() {
    let tick = PriceTick {
        pair_address: addr(0x01),
        token0_address: addr(0x02),
        token0_reserve: 1,
        token0_symbol: b"".to_vec(),
        token1_address: addr(0x03),
        token1_reserve: 0,
        token1_symbol: b"#".to_vec(),
        token0_token1_e18: b"0".to_vec(),
        token1_token0_e18: b"0".to_vec(),
        transaction_hash: TxHash::new(vec![0u8; 32]).unwrap(),
        block_number: 0,
        block_timestamp: 0,
    };
    let bytes = encode_price_tick(&tick);
    assert_eq!(decode_price_tick(&bytes).unwrap(), tick);
    let mut broken = bytes.clone();
    broken[1] = b'[';
    assert!(decode_price_tick(&broken).is_none());
    let mut longer = bytes.clone();
    longer.push(b'}');
    assert!(decode_price_tick(&longer).is_none());
}
