//! Exact decimal arithmetic on digit strings.

use dex_pipeline::arith::{
    canonicalize, compare_digits, digits_to_u128, digits_to_u64, ge_digits, is_canonical_digits,
    long_div, sub_digits, u128_to_digits, DigCmp,
};

#[test]
fn renders_zero_and_small_values() {
    assert_eq!(u128_to_digits(0), b"0".to_vec());
    assert_eq!(u128_to_digits(7), b"7".to_vec());
    assert_eq!(u128_to_digits(10), b"10".to_vec());
    assert_eq!(u128_to_digits(12345), b"12345".to_vec());
}

#[test]
fn renders_wide_values() {
    // 2^112 - 1, the largest reserve
    let max_reserve: u128 = (1u128 << 112) - 1;
    assert_eq!(
        u128_to_digits(max_reserve),
        b"5192296858534827628530496329220095".to_vec()
    );
    assert_eq!(u128_to_digits(u128::MAX), b"340282366920938463463374607431768211455".to_vec());
}

#[test]
fn reads_digit_strings_back() {
    assert_eq!(digits_to_u128(&b"0".to_vec()), Some(0));
    assert_eq!(digits_to_u128(&b"340282366920938463463374607431768211455".to_vec()), Some(u128::MAX));
    // one past u128::MAX does not fit
    assert_eq!(digits_to_u128(&b"340282366920938463463374607431768211456".to_vec()), None);
    assert_eq!(digits_to_u64(&b"18446744073709551615".to_vec()), Some(u64::MAX));
    assert_eq!(digits_to_u64(&b"18446744073709551616".to_vec()), None);
}

#[test]
fn compares_by_value() {
    assert!(matches!(compare_digits(&b"9".to_vec(), &b"10".to_vec()), DigCmp::Lt));
    assert!(matches!(compare_digits(&b"10".to_vec(), &b"9".to_vec()), DigCmp::Gt));
    assert!(matches!(compare_digits(&b"123".to_vec(), &b"123".to_vec()), DigCmp::Eq));
    assert!(ge_digits(&b"100".to_vec(), &b"99".to_vec()));
    assert!(!ge_digits(&b"98".to_vec(), &b"99".to_vec()));
}

#[test]
fn subtracts_with_borrows() {
    assert_eq!(sub_digits(&b"1000".to_vec(), &b"1".to_vec()), b"999".to_vec());
    assert_eq!(sub_digits(&b"123".to_vec(), &b"123".to_vec()), b"0".to_vec());
    assert_eq!(
        sub_digits(&b"100000000000000000000000000".to_vec(), &b"1".to_vec()),
        b"99999999999999999999999999".to_vec()
    );
}

#[test]
fn divides_exactly() {
    assert_eq!(long_div(&b"1000".to_vec(), &b"7".to_vec()), b"142".to_vec());
    assert_eq!(long_div(&b"100000000000000000000".to_vec(), &b"3".to_vec()), b"33333333333333333333".to_vec());
    assert_eq!(long_div(&b"5".to_vec(), &b"7".to_vec()), b"0".to_vec());
    assert_eq!(long_div(&b"0".to_vec(), &b"7".to_vec()), b"0".to_vec());
    assert_eq!(long_div(&b"49".to_vec(), &b"7".to_vec()), b"7".to_vec());
}

#[test]
fn canonical_form_drops_leading_zeros() {
    assert_eq!(canonicalize(&b"000123".to_vec()), b"123".to_vec());
    assert_eq!(canonicalize(&b"0000".to_vec()), b"0".to_vec());
    assert!(is_canonical_digits(&b"0".to_vec()));
    assert!(!is_canonical_digits(&b"00".to_vec()));
    assert!(!is_canonical_digits(&b"01".to_vec()));
    assert!(!is_canonical_digits(&b"".to_vec()));
    assert!(!is_canonical_digits(&b"12a".to_vec()));
}
