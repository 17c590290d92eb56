use treasury::wire::{check_handshake, check_message_size, encode_frame, encode_handshake,
    parse_handshake, parse_header, parse_port, version, Handshake, HandshakeError, DEFAULT_PORT,
    MAGIC, MESSAGE_LIMIT, VERSION_MAJOR};

#[test]
fn handshake_encodes_magic_then_version() {
    let bytes = encode_handshake();
    assert_eq!(bytes.len(), 8);
    assert_eq!(&bytes[..4], MAGIC.to_le_bytes());
    assert_eq!(&bytes[4..], VERSION_MAJOR.to_le_bytes());
}

#[test]
fn handshake_round_trip() {
    let bytes = encode_handshake();
    let h = parse_handshake(&bytes);
    assert_eq!(h.magic, MAGIC);
    assert_eq!(h.version, VERSION_MAJOR);
    assert!(check_handshake(&h).is_ok());
}

#[test]
fn handshake_magic_is_tres() {
    assert_eq!(MAGIC, u32::from_le_bytes(*b"TRES"));
    assert_eq!(&encode_handshake()[..4], b"TRES");
}

#[test]
fn handshake_rejects_wrong_magic() {
    let h = Handshake { magic: 1234, version: VERSION_MAJOR };
    assert_eq!(check_handshake(&h), Err(HandshakeError::WrongMagic));
}

#[test]
fn handshake_rejects_wrong_version() {
    let h = Handshake { magic: MAGIC, version: VERSION_MAJOR + 1 };
    assert_eq!(check_handshake(&h), Err(HandshakeError::VersionMismatch));
    assert_eq!(version(), VERSION_MAJOR);
}

#[test]
fn frame_prefixes_length_header() {
    let payload = vec![9u8, 8, 7];
    let framed = encode_frame(&payload).unwrap();
    assert_eq!(&framed[..4], 3u32.to_le_bytes());
    assert_eq!(&framed[4..], &payload[..]);
    let header = parse_header(&framed[..4].to_vec());
    assert_eq!(header.size, 3);
}

#[test]
fn message_size_limit_is_256_mib() {
    assert_eq!(MESSAGE_LIMIT, 256 * 1024 * 1024);
    assert!(check_message_size(MESSAGE_LIMIT));
    assert!(!check_message_size(MESSAGE_LIMIT + 1));
}

#[test]
fn port_parsing() {
    assert_eq!(parse_port(None), DEFAULT_PORT);
    assert_eq!(parse_port(Some("8080")), 8080);
    assert_eq!(parse_port(Some("0")), 0);
    assert_eq!(parse_port(Some("65535")), 65535);
    assert_eq!(parse_port(Some("65536")), DEFAULT_PORT);
    assert_eq!(parse_port(Some("")), DEFAULT_PORT);
    assert_eq!(parse_port(Some("12x4")), DEFAULT_PORT);
    assert_eq!(DEFAULT_PORT, 12345);
}
