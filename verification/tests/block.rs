use flow_node::block::Block;
use flow_node::content_id::ContentId;
use flow_node::error::BlockStoreError;

#[test]
fn test_block_new() {
    let block = Block::new(b"test data".to_vec());

    assert_eq!(block.data(), b"test data");
    assert_eq!(block.size(), 9);
    assert!(!block.has_links());
}

#[test]
fn test_block_with_links() {
    let link1 = ContentId::from_bytes(b"linked block 1");
    let link2 = ContentId::from_bytes(b"linked block 2");

    let block = Block::with_links(b"parent block".to_vec(), vec![link1.clone(), link2.clone()]);

    assert!(block.has_links());
    assert_eq!(block.links().len(), 2);
    assert!(block.links().contains(&link1));
    assert!(block.links().contains(&link2));
}

#[test]
fn test_block_verify() {
    let block = Block::new(b"verify me".to_vec());
    assert!(block.verify());
}

#[test]
fn test_block_equality() {
    let block1 = Block::new(b"same data".to_vec());
    let block2 = Block::new(b"same data".to_vec());
    let block3 = Block::new(b"different data".to_vec());

    assert_eq!(block1, block2);
    assert_ne!(block1, block3);
}

#[test]
fn test_block_from_parts_valid() {
    let data = b"original data".to_vec();
    let cid = ContentId::from_bytes(&data);

    let block = Block::from_parts(cid.clone(), data, vec![]).unwrap();
    assert_eq!(block.cid(), &cid);
}

#[test]
fn test_block_from_parts_invalid() {
    let data = b"original data".to_vec();
    let wrong_cid = ContentId::from_bytes(b"different data");

    let result = Block::from_parts(wrong_cid, data, vec![]);
    assert!(matches!(result, Err(BlockStoreError::IntegrityError { .. })));
}

#[test]
fn test_block_stored_bytes_roundtrip() {
    let link = ContentId::from_bytes(b"linked");
    let original = Block::with_links(b"parent data".to_vec(), vec![link]);

    let bytes = original.to_stored_bytes().unwrap();
    let restored = Block::from_stored_bytes(original.cid().clone(), &bytes).unwrap();

    assert_eq!(original, restored);
    assert_eq!(original.links(), restored.links());
}

#[test]
fn test_block_stored_bytes_roundtrip_no_links() {
    let original = Block::new(b"no links".to_vec());

    let bytes = original.to_stored_bytes().unwrap();
    let restored = Block::from_stored_bytes(original.cid().clone(), &bytes).unwrap();

    assert_eq!(original, restored);
    assert!(restored.links().is_empty());
}

#[test]
fn test_block_empty_data() {
    let block = Block::new(vec![]);
    assert_eq!(block.size(), 0);
    assert!(block.verify());
}

#[test]
fn test_block_large_data() {
    let data = vec![42u8; 1_000_000];
    let block = Block::new(data);
    assert_eq!(block.size(), 1_000_000);
    assert!(block.verify());
}

#[test]
fn test_block_from_stored_bytes_corrupted() {
    let cid = ContentId::from_bytes(b"test");
    let garbage = b"not valid cbor";

    let result = Block::from_stored_bytes(cid, garbage);
    assert!(matches!(result, Err(BlockStoreError::Serialization(_))));
}

#[test]
fn test_block_from_stored_bytes_cid_mismatch() {
    let original = Block::new(b"original data".to_vec());
    let bytes = original.to_stored_bytes().unwrap();

    let wrong_cid = ContentId::from_bytes(b"different");
    let result = Block::from_stored_bytes(wrong_cid, &bytes);

    assert!(matches!(result, Err(BlockStoreError::IntegrityError { .. })));
}

#[test]
fn test_block_from_parts_with_links() {
    let data = b"parent".to_vec();
    let cid = ContentId::from_bytes(&data);
    let link = ContentId::from_bytes(b"child");

    let block = Block::from_parts(cid.clone(), data, vec![link.clone()]).unwrap();

    assert_eq!(block.cid(), &cid);
    assert_eq!(block.links(), &[link]);
}

#[test]
fn test_block_deterministic() {
    let block1 = Block::new(b"deterministic".to_vec());
    let block2 = Block::new(b"deterministic".to_vec());

    assert_eq!(block1.cid(), block2.cid());
    assert_eq!(block1.data(), block2.data());
}

#[test]
fn test_block_many_links() {
    let links: Vec<ContentId> = (0..100).map(|i| ContentId::from_bytes(&[i as u8])).collect();

    let block = Block::with_links(b"parent".to_vec(), links.clone());

    assert_eq!(block.links().len(), 100);

    let bytes = block.to_stored_bytes().unwrap();
    let restored = Block::from_stored_bytes(block.cid().clone(), &bytes).unwrap();
    assert_eq!(restored.links(), links.as_slice());
}

#[test]
fn test_block_cid_accessor() {
    let data = b"test";
    let expected_cid = ContentId::from_bytes(data);
    let block = Block::new(data.to_vec());

    assert_eq!(block.cid(), &expected_cid);
}

#[test]
fn dag_cbor_block_uses_dag_cbor_identifier() {
    let data = vec![0xa0u8];
    let block = Block::from_dag_cbor(data.clone(), vec![]);
    assert!(block.cid().is_dag_cbor());
    assert_eq!(block.cid(), &ContentId::from_dag_cbor(&data));
    assert!(block.verify());
}

#[test]
fn stored_dag_cbor_block_reads_back_under_its_identifier() {
    let block = Block::from_dag_cbor(vec![0xa0u8], vec![]);
    let bytes = block.to_stored_bytes().unwrap();
    let restored = Block::from_stored_bytes(block.cid().clone(), &bytes).unwrap();
    assert_eq!(restored.cid(), block.cid());
    assert_eq!(restored.data(), block.data());

    // Under the RAW identifier of other data it is refused.
    let other = ContentId::from_bytes(b"other");
    let result = Block::from_stored_bytes(other, &bytes);
    assert!(matches!(result, Err(BlockStoreError::IntegrityError { .. })));
}

#[test]
fn from_parts_checks_as_verify_does() {
    let data = vec![0xa1u8, 0x61, 0x61, 0x01];
    let cbor_id = ContentId::from_dag_cbor(&data);
    let block = Block::from_parts(cbor_id.clone(), data.clone(), vec![]).unwrap();
    assert_eq!(block.cid(), &cbor_id);
    assert!(cbor_id.verify(&data));
    let raw_id = ContentId::from_bytes(&data);
    assert!(Block::from_parts(raw_id, data.clone(), vec![]).is_ok());
    match Block::from_parts(ContentId::from_dag_cbor(b"x"), data.clone(), vec![]) {
        Err(BlockStoreError::IntegrityError { expected, actual }) => {
            assert_eq!(expected, ContentId::from_dag_cbor(b"x"));
            assert_eq!(actual, cbor_id);
        }
        _ => panic!("expected an integrity error"),
    }
}

#[test]
fn block_test_block_with_links() {
    let link1 = ContentId::from_bytes(b"linked block 1");
    let link2 = ContentId::from_bytes(b"linked block 2");

    let block = Block::with_links(b"parent block".to_vec(), vec![link1.clone(), link2.clone()]);

    assert!(block.has_links());
    assert_eq!(block.links().len(), 2);
    assert!(block.links().contains(&link1));
    assert!(block.links().contains(&link2));
}
