use std::collections::HashSet;

use flow_node::content_id::ContentId;
use flow_node::error::BlockStoreError;

#[test]
fn test_cid_from_bytes_deterministic() {
    let data = b"hello world";
    let cid1 = ContentId::from_bytes(data);
    let cid2 = ContentId::from_bytes(data);
    assert_eq!(cid1, cid2, "Same data should produce identical CIDs");
}

#[test]
fn test_cid_different_data_different_cid() {
    let cid1 = ContentId::from_bytes(b"hello");
    let cid2 = ContentId::from_bytes(b"world");
    assert_ne!(cid1, cid2, "Different data should produce different CIDs");
}

#[test]
fn test_cid_string_roundtrip() {
    let original = ContentId::from_bytes(b"test data");
    let string = original.to_cid_string();
    let parsed = ContentId::parse(&string).unwrap();
    assert_eq!(original, parsed);
}

#[test]
fn test_cid_bytes_roundtrip() {
    let original = ContentId::from_bytes(b"test data");
    let bytes = original.to_bytes();
    let restored = ContentId::from_raw_bytes(&bytes).unwrap();
    assert_eq!(original, restored);
}

#[test]
fn test_cid_is_raw() {
    let cid = ContentId::from_bytes(b"raw data");
    assert!(cid.is_raw());
    assert!(!cid.is_dag_cbor());
}

#[test]
fn test_cid_is_dag_cbor() {
    let cid = ContentId::from_dag_cbor(b"structured data");
    assert!(cid.is_dag_cbor());
    assert!(!cid.is_raw());
}

#[test]
fn test_cid_verify_valid() {
    let data = b"verify me";
    let cid = ContentId::from_bytes(data);
    assert!(cid.verify(data));
}

#[test]
fn test_cid_verify_invalid() {
    let data = b"original";
    let cid = ContentId::from_bytes(data);
    assert!(!cid.verify(b"modified"));
}

#[test]
fn test_cid_empty_data() {
    let cid = ContentId::from_bytes(b"");
    assert!(!cid.to_cid_string().is_empty());
    assert!(cid.verify(b""));
}

#[test]
fn test_cid_large_data() {
    let data = vec![0u8; 1_000_000];
    let cid = ContentId::from_bytes(&data);
    assert!(cid.verify(&data));
}

#[test]
fn test_cid_hash_consistency() {
    let cid1 = ContentId::from_bytes(b"hash test");
    let cid2 = ContentId::from_bytes(b"hash test");
    let mut set = HashSet::new();
    set.insert(cid1.clone());
    assert!(set.contains(&cid2));
}

#[test]
fn test_cid_parse_invalid() {
    let result = ContentId::parse("not-a-valid-cid");
    assert!(result.is_err());
}

#[test]
fn test_cid_verify_dag_cbor() {
    let data = b"dag-cbor data";
    let cid = ContentId::from_dag_cbor(data);
    assert!(cid.verify(data));
    assert!(!cid.verify(b"wrong data"));
}

#[test]
fn test_cid_different_codec_different_cid() {
    let data = b"same data";
    let raw_cid = ContentId::from_bytes(data);
    let cbor_cid = ContentId::from_dag_cbor(data);
    assert_ne!(raw_cid, cbor_cid, "Same data with different codec should differ");
    assert_eq!(raw_cid.hash_bytes(), cbor_cid.hash_bytes(), "But hash should be same");
}

#[test]
fn test_cid_from_raw_bytes_invalid() {
    let result = ContentId::from_raw_bytes(&[0, 1, 2, 3]);
    assert!(result.is_err());
}

#[test]
fn test_cid_codec() {
    let raw = ContentId::from_bytes(b"raw");
    let cbor = ContentId::from_dag_cbor(b"cbor");
    assert_eq!(raw.codec(), 0x55);
    assert_eq!(cbor.codec(), 0x71);
}

#[test]
fn test_cid_hash_bytes() {
    let cid = ContentId::from_bytes(b"test");
    let hash = cid.hash_bytes();
    assert_eq!(hash.len(), 32, "SHA256 produces 32 bytes");
}

#[test]
fn test_cid_known_vector() {
    let cid = ContentId::from_bytes(b"hello world");
    let expected = "bafkreifzjut3te2nhyekklss27nh3k72ysco7y32koao5eei66wof36n5e";
    assert_eq!(cid.to_cid_string(), expected);
}

#[test]
fn test_cid_known_digest_bytes() {
    // SHA2-256 of "abc".
    let cid = ContentId::from_bytes(b"abc");
    assert_eq!(
        cid.hash_bytes(),
        &[
            0xba, 0x78, 0x16, 0xbf, 0x8f, 0x01, 0xcf, 0xea, 0x41, 0x41, 0x40, 0xde, 0x5d, 0xae,
            0x22, 0x23, 0xb0, 0x03, 0x61, 0xa3, 0x96, 0x17, 0x7a, 0x9c, 0xb4, 0x10, 0xff, 0x61,
            0xf2, 0x00, 0x15, 0xad
        ][..]
    );
}

#[test]
fn test_cid_binary_layout() {
    // CIDv1: version 1, codec RAW (0x55), multihash SHA2-256 (0x12), length 32, digest.
    let cid = ContentId::from_bytes(b"hello world");
    let bytes = cid.to_bytes();
    assert_eq!(&bytes[..4], &[0x01, 0x55, 0x12, 0x20]);
    assert_eq!(bytes.len(), 36);
    assert_eq!(&bytes[4..], cid.hash_bytes());
}

#[test]
fn test_cid_parse_v0() {
    let text = "QmdfTbBqBPQ7VNxZEYEj14VmRuZBkqFbiwReogJgS1zR1n";
    let cid = ContentId::parse(text).unwrap();
    assert_eq!(cid.version(), 0);
    assert_eq!(cid.codec(), 0x70);
    assert_eq!(cid.to_cid_string(), text);
}

#[test]
fn test_cid_parse_error_kind() {
    match ContentId::parse("x") {
        Err(BlockStoreError::InvalidCid(msg)) => assert!(!msg.is_empty()),
        other => panic!("unexpected {:?}", other),
    }
}

#[test]
fn test_cid_debug_format() {
    let cid = ContentId::from_bytes(b"debug test");
    let debug = format!("{:?}", cid);

    assert!(debug.contains("ContentId"));
    assert!(debug.contains("codec"));
}
