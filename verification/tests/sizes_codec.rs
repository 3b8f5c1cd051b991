use base64::Engine;

use mocktioneer::codec::{decode_price, encode_price, parse_price_bytes};
use mocktioneer::sizes::{is_standard_size, price_for_size, standard_or_default};

#[test]
fn auction_test_is_standard_size_true() {
    let sizes = [
        (300, 250),
        (320, 50),
        (728, 90),
        (160, 600),
        (300, 50),
        (300, 600),
        (970, 250),
        (468, 60),
        (336, 280),
        (320, 100),
    ];
    for (w, h) in sizes {
        assert!(is_standard_size(w, h), "{}x{} should be standard", w, h);
    }
}

#[test]
fn auction_test_is_standard_size_false() {
    assert!(!is_standard_size(333, 222));
    assert!(!is_standard_size(0, 0));
    assert!(!is_standard_size(300, 251));
}

#[test]
fn auction_test_standard_or_default_behavior() {
    assert_eq!(standard_or_default(333, 222), (300, 250));
    assert_eq!(standard_or_default(320, 50), (320, 50));
}

#[test]
fn price_table_fixed_values() {
    assert_eq!(price_for_size(300, 250), 250);
    assert_eq!(price_for_size(728, 90), 300);
    assert_eq!(price_for_size(970, 250), 420);
    assert_eq!(price_for_size(320, 50), 180);
    assert_eq!(price_for_size(970, 90), 320);
    assert_eq!(price_for_size(320, 480), 390);
}

#[test]
fn price_fallback_area_formula() {
    // 333 x 222 = 73926 square pixels: bonus rounds half-up to 74 cents
    assert_eq!(price_for_size(333, 222), 150 + 74);
    // 1 x 1: the area bonus rounds away to nothing
    assert_eq!(price_for_size(1, 1), 150);
    // 1 x 400: (400 + 500) / 1000 rounds to 0 cents
    assert_eq!(price_for_size(1, 400), 150);
    // huge areas cap the bonus at 3.00
    assert_eq!(price_for_size(1000, 1000), 450);
    assert_eq!(price_for_size(i64::MAX, i64::MAX), 450);
    // the cap boundary: 299500 square pixels round up to exactly 3.00
    assert_eq!(price_for_size(599, 500), 450);
    assert_eq!(price_for_size(1, 299499), 150 + 299);
}

#[test]
fn test_decode_aps_price_valid() {
    assert_eq!(decode_price(&encode_price(250)).unwrap(), 250);
    assert_eq!(decode_price(&encode_price(300)).unwrap(), 300);
    assert_eq!(decode_price(&encode_price(1)).unwrap(), 1);
}

#[test]
fn test_decode_aps_price_invalid() {
    assert!(decode_price("not-valid-base64!!!").is_none());
    assert!(decode_price("").is_none());
}

#[test]
fn encode_price_round_trips_all_shapes() {
    for cents in [0, 1, 9, 10, 99, 100, 101, 250, 123456, i64::MAX] {
        assert_eq!(decode_price(&encode_price(cents)), Some(cents));
    }
}

#[test]
fn encode_price_renders_decimal_dollars() {
    let token = encode_price(250);
    let bytes = base64::engine::general_purpose::STANDARD
        .decode(token.as_bytes())
        .unwrap();
    assert_eq!(bytes, b"2.50".to_vec());
    let token0 = encode_price(5);
    let bytes0 = base64::engine::general_purpose::STANDARD
        .decode(token0.as_bytes())
        .unwrap();
    assert_eq!(bytes0, b"0.05".to_vec());
}

#[test]
fn decode_price_accepts_short_decimals() {
    let enc = |s: &str| base64::engine::general_purpose::STANDARD.encode(s.as_bytes());
    assert_eq!(decode_price(&enc("2.5")), Some(250));
    assert_eq!(decode_price(&enc("3")), Some(300));
    assert_eq!(decode_price(&enc("2.50")), Some(250));
    assert_eq!(decode_price(&enc("0.01")), Some(1));
}

#[test]
fn decode_price_rejects_malformed_numbers() {
    let enc = |s: &str| base64::engine::general_purpose::STANDARD.encode(s.as_bytes());
    assert_eq!(decode_price(&enc("")), None);
    assert_eq!(decode_price(&enc(".50")), None);
    assert_eq!(decode_price(&enc("2.")), None);
    assert_eq!(decode_price(&enc("2.505")), None);
    assert_eq!(decode_price(&enc("2,50")), None);
    assert_eq!(decode_price(&enc("-1.00")), None);
    assert_eq!(decode_price(&enc("1e3")), None);
}

#[test]
fn parse_price_bytes_exact_values() {
    assert_eq!(parse_price_bytes(&b"2.50".to_vec()), Some(250));
    assert_eq!(parse_price_bytes(&b"0.05".to_vec()), Some(5));
    assert_eq!(parse_price_bytes(&b"12".to_vec()), Some(1200));
    assert_eq!(parse_price_bytes(&b"2.x0".to_vec()), None);
    assert_eq!(parse_price_bytes(&b"99999999999999999999".to_vec()), None);
}
