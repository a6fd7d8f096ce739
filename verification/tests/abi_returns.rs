//! Decoding of contract call returns: words, decimal renderings, and
//! dynamic strings.

use dex_pipeline::abi::{
    decode_address_return, decode_string_return, decode_uint256_return_decimal,
    decode_uint8_return,
};
use dex_pipeline::arith::mul256_add;
use dex_pipeline::model::Address;

fn word_of_u128(x: u128) -> Vec<u8> {
    let mut w = vec![0u8; 16];
    w.extend(x.to_be_bytes());
    w
}

#[test]
fn uint8_returns_decode_exactly() {
    assert_eq!(decode_uint8_return(&word_of_u128(18)), Some(18));
    assert_eq!(decode_uint8_return(&word_of_u128(255)), Some(255));
    // a value beyond u8 is not a uint8 return
    assert_eq!(decode_uint8_return(&word_of_u128(256)), None);
    // truncated word
    assert_eq!(decode_uint8_return(&vec![0u8; 31]), None);
}

#[test]
fn address_returns_decode_exactly() {
    let mut w = vec![0u8; 12];
    w.extend(vec![0x11u8; 20]);
    assert_eq!(decode_address_return(&w), Some(Address::new(vec![0x11; 20]).unwrap()));
    // nonzero padding is not an address word
    let mut bad = w.clone();
    bad[0] = 1;
    assert_eq!(decode_address_return(&bad), None);
    assert_eq!(decode_address_return(&vec![0u8; 31]), None);
}

#[test]
fn uint256_returns_render_exact_decimals() {
    assert_eq!(decode_uint256_return_decimal(&word_of_u128(0)), Some(b"0".to_vec()));
    assert_eq!(decode_uint256_return_decimal(&word_of_u128(256)), Some(b"256".to_vec()));
    assert_eq!(
        decode_uint256_return_decimal(&word_of_u128(1_000_000_000_000_000_000)),
        Some(b"1000000000000000000".to_vec())
    );
    // the largest 256-bit value
    let all_ones = vec![0xffu8; 32];
    assert_eq!(
        decode_uint256_return_decimal(&all_ones),
        Some(
            b"115792089237316195423570985008687907853269984665640564039457584007913129639935"
                .to_vec()
        )
    );
    assert_eq!(decode_uint256_return_decimal(&vec![0u8; 31]), None);
}

#[test]
fn string_returns_decode_exactly() {
    // offset word 0x20, length word 4, then "WETH" padded to a word
    let mut ret = word_of_u128(0x20);
    ret.extend(word_of_u128(4));
    ret.extend(b"WETH");
    ret.extend(vec![0u8; 28]);
    assert_eq!(decode_string_return(&ret), Some(b"WETH".to_vec()));

    // the empty string
    let mut empty = word_of_u128(0x20);
    empty.extend(word_of_u128(0));
    assert_eq!(decode_string_return(&empty), Some(Vec::new()));

    // a length that runs past the return data
    let mut overrun = word_of_u128(0x20);
    overrun.extend(word_of_u128(64));
    overrun.extend(b"WETH");
    assert_eq!(decode_string_return(&overrun), None);

    // an offset that runs past the return data
    let mut far = word_of_u128(0x200);
    far.extend(word_of_u128(4));
    assert_eq!(decode_string_return(&far), None);

    assert_eq!(decode_string_return(&vec![0u8; 63]), None);
}

#[test]
fn mul256_add_folds_bytes_into_decimals() {
    assert_eq!(mul256_add(&b"0".to_vec(), 0), b"0".to_vec());
    assert_eq!(mul256_add(&b"0".to_vec(), 255), b"255".to_vec());
    assert_eq!(mul256_add(&b"1".to_vec(), 0), b"256".to_vec());
    assert_eq!(mul256_add(&b"1".to_vec(), 255), b"511".to_vec());
    assert_eq!(mul256_add(&b"1000".to_vec(), 7), b"256007".to_vec());
}
