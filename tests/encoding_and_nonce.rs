use indy_anoncreds::encoding::encode_attr;
use indy_anoncreds::nonce::{generate_nonce, nonce_from_bytes};
use sha2::{Digest, Sha256};
use std::collections::HashSet;

/// Decimal text of a big-endian number, by schoolbook division.
fn big_endian_decimal(bytes: &[u8]) -> String {
    let mut n: Vec<u32> = bytes.iter().map(|b| *b as u32).collect();
    let mut digits = Vec::new();
    while n.iter().any(|d| *d != 0) {
        let mut rem = 0u32;
        for d in n.iter_mut() {
            let cur = rem * 256 + *d;
            *d = cur / 10;
            rem = cur % 10;
        }
        digits.push((b'0' + rem as u8) as char);
    }
    if digits.is_empty() {
        digits.push('0');
    }
    digits.iter().rev().collect()
}

#[test]
fn integers_encode_to_themselves() {
    assert_eq!(encode_attr("28"), "28");
    assert_eq!(encode_attr("0"), "0");
    assert_eq!(encode_attr("-5"), "-5");
    assert_eq!(encode_attr("+7"), "7");
    assert_eq!(encode_attr("007"), "7");
    assert_eq!(encode_attr("2147483647"), "2147483647");
    assert_eq!(encode_attr("-2147483648"), "-2147483648");
}

#[test]
fn encoding_is_idempotent_on_integers() {
    for raw in ["28", "-5", "+7", "0012"] {
        let once = encode_attr(raw);
        assert_eq!(encode_attr(&once), once);
    }
}

#[test]
fn text_encodes_to_its_sha256_as_a_number() {
    for raw in ["Alice", "", "2147483648", "1.5", "Bob"] {
        let expected = big_endian_decimal(&Sha256::digest(raw.as_bytes()));
        let got = encode_attr(raw);
        assert_eq!(got, expected);
        assert_ne!(got, raw);
    }
    assert_ne!(encode_attr("Alice"), encode_attr("Bob"));
}

#[test]
fn nonce_is_an_80_bit_decimal() {
    let n = generate_nonce();
    let v: u128 = n.parse().unwrap();
    assert!(v < (1u128 << 80));
    assert_eq!(v.to_string(), n);
}

#[test]
fn nonce_from_known_bytes() {
    assert_eq!(nonce_from_bytes(&vec![0u8; 10]), "0");
    assert_eq!(nonce_from_bytes(&vec![0, 0, 0, 0, 0, 0, 0, 0, 1, 0]), "256");
    assert_eq!(nonce_from_bytes(&vec![255u8; 10]), ((1u128 << 80) - 1).to_string());
}

#[test]
fn nonces_do_not_repeat() {
    let mut seen = HashSet::new();
    for _ in 0..10000 {
        assert!(seen.insert(generate_nonce()));
    }
}
