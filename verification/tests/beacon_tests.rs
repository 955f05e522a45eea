use architect::beacon::{beacon_datagram, beacon_payload, hash_token, BEACON_MAGIC, CoordinatorBeacon, beacon_matches_token};

fn encode(port: u16, hash: [u8; 8], hostname: &str, client_id: &str) -> Vec<u8> {
    let payload = bincode::serialize(&(port, hash, hostname.to_string(), client_id.to_string())).unwrap();
    beacon_datagram(&payload)
}

#[test]
fn roundtrip_beacon() {
    let token_hash = hash_token("test-token");
    let encoded = encode(9876, token_hash, "coordinator", "abc-123");
    assert_eq!(&encoded[..4], &BEACON_MAGIC[..]);
    let payload = beacon_payload(&encoded).unwrap();
    let decoded: (u16, [u8; 8], String, String) = bincode::deserialize(&payload).unwrap();
    assert_eq!(decoded.0, 9876);
    assert_eq!(decoded.2, "coordinator");
    assert_eq!(decoded.1, token_hash);
}

#[test]
fn decode_invalid_magic() {
    assert!(beacon_payload(b"NOPE1234").is_none());
}

#[test]
fn decode_too_short() {
    assert!(beacon_payload(b"AR").is_none());
}

#[test]
fn token_hash_deterministic() {
    let h1 = hash_token("my-secret");
    let h2 = hash_token("my-secret");
    assert_eq!(h1, h2);
}

#[test]
fn token_hash_differs() {
    let h1 = hash_token("token-a");
    let h2 = hash_token("token-b");
    assert_ne!(h1, h2);
}

#[test]
fn token_hash_of_empty_is_offset_basis() {
    assert_eq!(hash_token(""), 0xcbf2_9ce4_8422_2325u64.to_le_bytes());
}

#[test]
fn token_hash_known_value() {
    // FNV-1a 64 of "a" is 0xaf63dc4c8601ec8c.
    assert_eq!(hash_token("a"), 0xaf63_dc4c_8601_ec8cu64.to_le_bytes());
}

#[test]
fn datagram_starts_with_magic_and_keeps_payload() {
    let d = beacon_datagram(&[1, 2, 3]);
    assert_eq!(d, vec![b'A', b'R', b'C', b'H', 1, 2, 3]);
    assert_eq!(beacon_payload(&d).unwrap(), vec![1, 2, 3]);
    assert_eq!(beacon_payload(b"ARCH").unwrap(), Vec::<u8>::new());
}

#[test]
fn beacon_matches_only_its_token() {
    let b = CoordinatorBeacon {
        grpc_port: 9876,
        token_hash: hash_token("secret"),
        hostname: "h".to_string(),
        client_id: "c".to_string(),
    };
    assert!(beacon_matches_token(&b, "secret"));
    assert!(!beacon_matches_token(&b, "other"));
}
