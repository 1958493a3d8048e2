use redux::error::ParseError;
use redux::hash::ContentHash;

const EMPTY_HEX: &str = "af1349b9f5f9a1a6a0404dea36dcc9499bcb25c9adc112b7cc9a93cae41f3262";

#[test]
fn hash_of_nothing_is_the_known_digest() {
    let h = ContentHash::of(b"");
    assert_eq!(h.to_hex(), EMPTY_HEX);
    assert_eq!(h.to_string(), EMPTY_HEX);
}

#[test]
fn hash_agrees_with_blake3() {
    let h = ContentHash::of(b"hi");
    assert_eq!(h.to_hex(), blake3::hash(b"hi").to_hex().to_string());
    assert_eq!(&h.bytes, blake3::hash(b"hi").as_bytes());
    assert_ne!(h, ContentHash::of(b"ho"));
}

#[test]
fn hash_depends_on_the_bytes_alone() {
    assert_eq!(ContentHash::of(b"same"), ContentHash::of(b"same"));
    assert!(ContentHash::of(b"same").same(&ContentHash::of(b"same")));
    assert!(!ContentHash::of(b"same").same(&ContentHash::of(b"other")));
}

#[test]
fn hex_is_lowercase_two_digits_per_byte() {
    let mut bytes = [0u8; 32];
    bytes[0] = 0xAB;
    bytes[1] = 0x01;
    bytes[31] = 0xF0;
    let h = ContentHash::from_bytes(bytes);
    let hex = h.to_hex();
    assert_eq!(hex.len(), 64);
    assert!(hex.starts_with("ab01"));
    assert!(hex.ends_with("f0"));
    assert_eq!(h.short(), "ab010000");
}

#[test]
fn hex_reads_back() {
    let h = ContentHash::of(b"round trip");
    assert_eq!(ContentHash::from_hex(&h.to_hex()), Ok(h));
    assert_eq!(ContentHash::from_str(&h.to_string()), Ok(h));
}

#[test]
fn hex_accepts_upper_case() {
    let h = ContentHash::from_hex(&EMPTY_HEX.to_uppercase()).unwrap();
    assert_eq!(h, ContentHash::of(b""));
}

#[test]
fn hex_of_wrong_length_is_refused() {
    assert_eq!(ContentHash::from_hex(""), Err(ParseError::BadHash));
    assert_eq!(ContentHash::from_hex(&EMPTY_HEX[..63]), Err(ParseError::BadHash));
    assert_eq!(ContentHash::from_hex(&format!("{}0", EMPTY_HEX)), Err(ParseError::BadHash));
}

#[test]
fn hex_with_a_foreign_character_is_refused() {
    let bad = format!("g{}", &EMPTY_HEX[1..]);
    assert_eq!(ContentHash::from_hex(&bad), Err(ParseError::BadHash));
}
