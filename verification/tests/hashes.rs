use treasury::hash::HashSha256;

const EMPTY_SHA256: &str = "e3b0c44298fc1c149afbf4c8996fb92427ae41e4649b934ca495991b7852b855";

#[test]
fn sha256_of_empty_string() {
    let h = HashSha256::new(b"");
    assert_eq!(h.to_hex(), EMPTY_SHA256);
}

#[test]
fn sha256_of_abc() {
    let h = HashSha256::new(b"abc");
    assert_eq!(
        h.to_hex(),
        "ba7816bf8f01cfea414140de5dae2223b00361a396177a9cb410ff61f20015ad"
    );
}

#[test]
fn hash_hex_round_trip() {
    let h = HashSha256::new(b"round trip");
    let hex = h.to_hex();
    assert_eq!(hex.len(), 64);
    let back = HashSha256::from_str(&hex).unwrap();
    assert_eq!(back.bytes(), h.bytes());
}

#[test]
fn hash_from_str_accepts_uppercase() {
    let upper = EMPTY_SHA256.to_uppercase();
    let a = HashSha256::from_str(EMPTY_SHA256).unwrap();
    let b = HashSha256::from_str(&upper).unwrap();
    assert_eq!(a.bytes(), b.bytes());
}

#[test]
fn hash_from_str_rejects_wrong_length() {
    assert!(HashSha256::from_str("abcd").is_err());
    assert!(HashSha256::from_str("").is_err());
    let too_long = format!("{}00", EMPTY_SHA256);
    assert!(HashSha256::from_str(&too_long).is_err());
}

#[test]
fn hash_from_str_rejects_non_hex() {
    let bad = format!("g{}", &EMPTY_SHA256[1..]);
    assert!(HashSha256::from_str(&bad).is_err());
}

#[test]
fn hash_equality_is_by_bytes() {
    let a = HashSha256::new(b"same");
    let b = HashSha256::new(b"same");
    let c = HashSha256::new(b"other");
    assert!(a.equals(&b));
    assert!(!a.equals(&c));
}
