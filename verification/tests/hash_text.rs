use bones_core::event::hash_text::{decode_blake3_hash, encode_blake3_hash};

#[test]
fn base64_roundtrip_for_blake3_digest() {
    let digest = blake3::hash(b"hello-world");
    let encoded = encode_blake3_hash(digest.as_bytes());
    let decoded = decode_blake3_hash(&encoded).expect("decode");
    assert_eq!(decoded, *digest.as_bytes());
}

#[test]
fn accepts_legacy_hex_payload() {
    let digest = blake3::hash(b"legacy");
    let legacy = format!("blake3:{}", digest.to_hex());
    let decoded = decode_blake3_hash(&legacy).expect("decode");
    assert_eq!(decoded, *digest.as_bytes());
}

#[test]
fn rejects_invalid_payloads() {
    assert!(decode_blake3_hash("blake3:").is_none());
    assert!(decode_blake3_hash("blake3:abc").is_none());
    assert!(decode_blake3_hash("blake3:xyz!").is_none());
    assert!(decode_blake3_hash("sha256:abcd").is_none());
}
