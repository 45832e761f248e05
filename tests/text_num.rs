use std::cmp::Ordering;
use table_core::intern::{fingerprint_of, FNV_OFFSET};
use table_core::num::{compare_cells, is_null, NULL_BITS};
use table_core::text::{bytes_contains, bytes_ends_with, bytes_starts_with, compare_bytes, fold};

#[test]
fn fingerprint_known_values() {
    assert_eq!(fingerprint_of(b""), FNV_OFFSET);
    assert_eq!(fingerprint_of(b"a"), 0xaf63_dc4c_8601_ec8c);
    assert_eq!(fingerprint_of(b"foobar"), 0x8594_4171_f739_67e8);
}

#[test]
fn ordinal_compare_is_bytewise() {
    assert_eq!(compare_bytes(b"abc", b"abd"), Ordering::Less);
    assert_eq!(compare_bytes(b"ab", b"abc"), Ordering::Less);
    assert_eq!(compare_bytes(b"b", b"abc"), Ordering::Greater);
    assert_eq!(compare_bytes(b"Z", b"a"), Ordering::Less);
    assert_eq!(compare_bytes(b"", b""), Ordering::Equal);
    assert_eq!(compare_bytes("é".as_bytes(), b"z"), Ordering::Greater);
}

#[test]
fn substring_prefix_suffix() {
    assert!(bytes_contains(b"hello", b"ell"));
    assert!(bytes_contains(b"hello", b""));
    assert!(!bytes_contains(b"hel", b"hello"));
    assert!(bytes_starts_with(b"hello", b"he"));
    assert!(!bytes_starts_with(b"hello", b"el"));
    assert!(bytes_ends_with(b"hello", b"llo"));
    assert!(!bytes_ends_with(b"lo", b"hello"));
}

#[test]
fn fold_lowercases() {
    assert_eq!(fold("HeLLo"), b"hello".to_vec());
    assert_eq!(fold("ÄB"), "äb".as_bytes().to_vec());
    assert_eq!(fold(""), Vec::<u8>::new());
}

#[test]
fn null_minimal_numeric_order() {
    let nan = f64::NAN.to_bits();
    assert!(is_null(nan));
    assert!(is_null(NULL_BITS));
    assert!(!is_null(f64::INFINITY.to_bits()));
    assert_eq!(compare_cells(nan, NULL_BITS), Ordering::Equal);
    assert_eq!(compare_cells(nan, f64::NEG_INFINITY.to_bits()), Ordering::Less);
    assert_eq!(compare_cells(1.0f64.to_bits(), nan), Ordering::Greater);
    assert_eq!(compare_cells((-1.0f64).to_bits(), (-2.0f64).to_bits()), Ordering::Greater);
    assert_eq!(compare_cells(0.0f64.to_bits(), (-0.0f64).to_bits()), Ordering::Equal);
    assert_eq!(compare_cells(2.5f64.to_bits(), 10.0f64.to_bits()), Ordering::Less);
}
