use flow_node::chunking::ChunkingAlgorithm;
use flow_node::content_id::ContentId;
use flow_node::manifest::{
    DocumentManifest, ManifestStructure, TreeBuilder, TreeConfig, TreeNode, DEFAULT_TREE_FANOUT,
};
use serde_json::{Number, Value};

type JsonObject = serde_json::value::Map<String, Value>;

const TEST_DID: &str = "did:key:z6MkhaXgBZDvotDkL5257faiztiGiC2QtKLGpbnnEGta2doK";

fn sample_chunks() -> Vec<ContentId> {
    vec![
        ContentId::from_bytes(b"chunk1"),
        ContentId::from_bytes(b"chunk2"),
        ContentId::from_bytes(b"chunk3"),
    ]
}

fn generate_chunks(count: usize) -> Vec<ContentId> {
    (0..count)
        .map(|i| ContentId::from_bytes(format!("chunk_{:06}", i).as_bytes()))
        .collect()
}

#[test]
fn test_manifest_builder_flat_minimal() {
    let chunks = sample_chunks();
    let manifest = DocumentManifest::builder()
        .publisher_did(TEST_DID)
        .chunks(chunks.clone())
        .total_size(2048)
        .build_flat()
        .expect("should build");

    assert_eq!(manifest.publisher_did, TEST_DID);
    assert_eq!(manifest.children, chunks);
    assert_eq!(manifest.total_size, 2048);
    assert!(manifest.is_flat());
    assert_eq!(manifest.chunk_count(), 3);
}

#[test]
fn test_manifest_builder_flat_full() {
    let chunks = sample_chunks();
    let manifest = DocumentManifest::builder()
        .publisher_did(TEST_DID)
        .name("report.pdf")
        .content_type("application/pdf")
        .chunks(chunks.clone())
        .total_size(4096)
        .chunking_algorithm(ChunkingAlgorithm::Rabin)
        .created_at(1702156800)
        .metadata("author", "Alice")
        .build_flat()
        .expect("should build");

    assert_eq!(manifest.name, Some("report.pdf".into()));
    assert_eq!(manifest.content_type, Some("application/pdf".into()));
    assert_eq!(manifest.chunking_algorithm, ChunkingAlgorithm::Rabin);
    assert_eq!(manifest.created_at, 1702156800);
    assert_eq!(manifest.get_metadata("author"), Some("Alice"));
}

#[test]
fn test_manifest_builder_missing_publisher() {
    let result = DocumentManifest::builder()
        .chunks(sample_chunks())
        .total_size(1024)
        .build_flat();

    assert!(result.is_err());
    match result {
        Err(flow_node::error::BlockStoreError::Config(msg)) => assert!(msg.contains("publisher_did")),
        _ => panic!("expected a configuration error"),
    }
}

#[test]
fn test_manifest_builder_missing_size() {
    let result = DocumentManifest::builder()
        .publisher_did(TEST_DID)
        .chunks(sample_chunks())
        .build_flat();

    assert!(result.is_err());
    match result {
        Err(flow_node::error::BlockStoreError::Config(msg)) => assert!(msg.contains("total_size")),
        _ => panic!("expected a configuration error"),
    }
}

#[test]
fn test_root_cid_deterministic() {
    let manifest = DocumentManifest::builder()
        .publisher_did(TEST_DID)
        .chunks(sample_chunks())
        .total_size(1024)
        .created_at(1702156800)
        .build_flat()
        .unwrap();

    let cid1 = manifest.root_cid().unwrap();
    let cid2 = manifest.root_cid().unwrap();

    assert_eq!(cid1, cid2);
    assert!(cid1.is_dag_cbor());
}

#[test]
fn test_to_block() {
    let chunks = sample_chunks();
    let manifest = DocumentManifest::builder()
        .publisher_did(TEST_DID)
        .chunks(chunks.clone())
        .total_size(1024)
        .created_at(1702156800)
        .build_flat()
        .unwrap();

    let block = manifest.to_block().unwrap();
    let root_cid = manifest.root_cid().unwrap();

    assert_eq!(block.cid(), &root_cid);
    assert_eq!(block.links().len(), chunks.len());
}

#[test]
fn test_tree_builder_small_stays_flat() {
    let builder = TreeBuilder::new();
    let chunks = sample_chunks();

    let (children, structure, blocks) = builder.build(chunks.clone()).unwrap();

    assert!(matches!(structure, ManifestStructure::Flat));
    assert_eq!(children, chunks);
    assert!(blocks.is_empty());
}

#[test]
fn test_tree_builder_large_creates_tree() {
    let config = TreeConfig { fanout: 10, flat_threshold: 50 };
    let builder = TreeBuilder::with_config(config);
    let chunks = generate_chunks(100);

    let (children, structure, blocks) = builder.build(chunks).unwrap();

    match structure {
        ManifestStructure::Tree { depth, fanout, chunk_count } => {
            assert!(depth >= 1);
            assert_eq!(fanout, 10);
            assert_eq!(chunk_count, 100);
        }
        _ => panic!("Expected tree structure"),
    }

    assert!(!blocks.is_empty());
    assert!(children.len() <= 10);
}

#[test]
fn test_empty_chunks() {
    let manifest = DocumentManifest::builder()
        .publisher_did(TEST_DID)
        .chunks(vec![])
        .total_size(0)
        .build_flat()
        .unwrap();

    assert_eq!(manifest.chunk_count(), 0);
    assert!(manifest.is_flat());
}

#[test]
fn test_tree_node_to_block() {
    let children = generate_chunks(5);
    let node = TreeNode::new(children, true);

    let block = node.to_block().unwrap();
    assert_eq!(block.links().len(), 5);
    assert!(block.cid().is_dag_cbor());
}

#[test]
fn test_tree_builder_small_file_stays_flat() {
    let builder = TreeBuilder::new();
    let chunks = generate_chunks(100);

    let (children, structure, blocks) = builder.build(chunks.clone()).unwrap();

    assert!(matches!(structure, ManifestStructure::Flat));
    assert_eq!(children, chunks);
    assert!(blocks.is_empty());
}

#[test]
fn test_tree_builder_large_file_creates_tree() {
    let builder = TreeBuilder::new();
    let chunks = generate_chunks(50_000);

    let (children, structure, blocks) = builder.build(chunks.clone()).unwrap();

    match structure {
        ManifestStructure::Tree { depth, fanout, chunk_count } => {
            assert!(depth >= 1);
            assert_eq!(fanout, DEFAULT_TREE_FANOUT as u16);
            assert_eq!(chunk_count, 50_000);
        }
        _ => panic!("Expected tree structure"),
    }

    assert!(!blocks.is_empty());
    assert!(children.len() < chunks.len());
}

#[test]
fn test_tree_depth_calculation() {
    let config = TreeConfig { fanout: 10, flat_threshold: 10 };
    let builder = TreeBuilder::with_config(config);
    let chunks = generate_chunks(100);

    let (children, structure, blocks) = builder.build(chunks).unwrap();
    match structure {
        ManifestStructure::Tree { depth, .. } => {
            assert_eq!(depth, 1);
            assert_eq!(children.len(), 10);
        }
        _ => panic!("Expected tree structure"),
    }
    assert_eq!(blocks.len(), 10);
}

#[test]
fn tree_levels_group_in_order() {
    let config = TreeConfig { fanout: 3, flat_threshold: 3 };
    let chunks = generate_chunks(10);
    let (children, structure, blocks) = TreeBuilder::with_config(config).build(chunks.clone()).unwrap();
    // 10 chunks -> 4 leaf nodes (3,3,3,1) -> 2 nodes (3,1) -> root with 2 children.
    assert_eq!(blocks.len(), 6);
    assert_eq!(children.len(), 2);
    assert!(matches!(structure, ManifestStructure::Tree { depth: 2, fanout: 3, chunk_count: 10 }));
    assert_eq!(blocks[0].links(), &chunks[0..3]);
    assert_eq!(blocks[3].links(), &chunks[9..10]);
    let leaf = TreeNode::new(chunks[0..3].to_vec(), true);
    assert_eq!(blocks[0].cid(), &leaf.cid().unwrap());
    assert_eq!(blocks[4].links()[0], blocks[0].cid().clone());
    assert_eq!(&children[0], blocks[4].cid());
}

#[test]
fn set_metadata_replaces_and_keeps_others() {
    let mut manifest = DocumentManifest::builder()
        .publisher_did(TEST_DID)
        .total_size(1)
        .metadata("b", "1")
        .metadata("a", "2")
        .build_flat()
        .unwrap();
    manifest.set_metadata("b", "3");
    assert_eq!(manifest.get_metadata("b"), Some("3"));
    assert_eq!(manifest.get_metadata("a"), Some("2"));
    assert_eq!(manifest.get_metadata("c"), None);
    assert_eq!(manifest.metadata.len(), 2);
}

fn text(s: &str) -> Value {
    Value::String(s.to_string())
}

fn number(n: u64) -> Value {
    Value::Number(Number::from(n))
}

#[test]
fn tree_node_encoding_matches_serde_ipld_dagcbor() {
    let node = TreeNode::new(vec![], true);
    let mut map = JsonObject::new();
    map.insert("children".to_string(), Value::Array(vec![]));
    map.insert("is_leaf_level".to_string(), Value::Bool(true));
    let expected = serde_ipld_dagcbor::to_vec(&Value::Object(map)).unwrap();
    assert_eq!(node.to_dag_cbor().unwrap(), expected);
}

#[test]
fn tree_node_children_are_byte_strings() {
    let child = ContentId::from_bytes(b"c");
    let node = TreeNode::new(vec![child.clone()], false);
    let bytes = node.to_dag_cbor().unwrap();
    let mut expected = vec![0xa2, 0x68];
    expected.extend_from_slice(b"children");
    expected.extend_from_slice(&[0x81, 0x58, 36]);
    expected.extend_from_slice(&child.to_bytes());
    expected.push(0x6d);
    expected.extend_from_slice(b"is_leaf_level");
    expected.push(0xf4);
    assert_eq!(bytes, expected);
}

#[test]
fn manifest_encoding_matches_serde_ipld_dagcbor() {
    let manifest = DocumentManifest::builder()
        .publisher_did(TEST_DID)
        .name("report.pdf")
        .content_type("application/pdf")
        .total_size(4096)
        .chunking_algorithm(ChunkingAlgorithm::Rabin)
        .created_at(1702156800)
        .metadata("author", "Alice")
        .metadata("a-much-longer-metadata-key-for-ordering", "x")
        .metadata("z", "last by bytes, first by length")
        .build_flat()
        .unwrap();

    let mut structure = JsonObject::new();
    structure.insert("type".to_string(), text("flat"));
    let mut metadata = JsonObject::new();
    metadata.insert("author".to_string(), text("Alice"));
    metadata.insert("a-much-longer-metadata-key-for-ordering".to_string(), text("x"));
    metadata.insert("z".to_string(), text("last by bytes, first by length"));
    let mut map = JsonObject::new();
    map.insert("version".to_string(), number(1));
    map.insert("name".to_string(), text("report.pdf"));
    map.insert("content_type".to_string(), text("application/pdf"));
    map.insert("total_size".to_string(), number(4096));
    map.insert("structure".to_string(), Value::Object(structure));
    map.insert("children".to_string(), Value::Array(vec![]));
    map.insert("chunking_algorithm".to_string(), text("rabin"));
    map.insert("publisher_did".to_string(), text(TEST_DID));
    map.insert("created_at".to_string(), number(1702156800));
    map.insert("metadata".to_string(), Value::Object(metadata));
    let expected = serde_ipld_dagcbor::to_vec(&Value::Object(map)).unwrap();

    assert_eq!(manifest.to_dag_cbor().unwrap(), expected);
}

#[test]
fn tree_manifest_encoding_matches_serde_ipld_dagcbor() {
    let manifest = DocumentManifest {
        version: 1,
        name: None,
        content_type: None,
        total_size: 70_000,
        structure: ManifestStructure::Tree { depth: 2, fanout: 300, chunk_count: 70_000 },
        children: vec![],
        chunking_algorithm: ChunkingAlgorithm::FastCdc,
        publisher_did: TEST_DID.to_string(),
        created_at: 5_000_000_000,
        metadata: flow_node::metadata::Metadata::new(),
    };

    let mut structure = JsonObject::new();
    structure.insert("type".to_string(), text("tree"));
    structure.insert("depth".to_string(), number(2));
    structure.insert("fanout".to_string(), number(300));
    structure.insert("chunk_count".to_string(), number(70_000));
    let mut map = JsonObject::new();
    map.insert("version".to_string(), number(1));
    map.insert("total_size".to_string(), number(70_000));
    map.insert("structure".to_string(), Value::Object(structure));
    map.insert("children".to_string(), Value::Array(vec![]));
    map.insert("chunking_algorithm".to_string(), text("fastcdc"));
    map.insert("publisher_did".to_string(), text(TEST_DID));
    map.insert("created_at".to_string(), number(5_000_000_000));
    let expected = serde_ipld_dagcbor::to_vec(&Value::Object(map)).unwrap();

    assert_eq!(manifest.to_dag_cbor().unwrap(), expected);
    assert_eq!(
        manifest.root_cid().unwrap(),
        ContentId::from_dag_cbor(&expected)
    );
}

#[test]
fn build_tree_returns_nodes_for_large_inputs() {
    let (manifest, blocks) = DocumentManifest::builder()
        .publisher_did(TEST_DID)
        .chunks(generate_chunks(100))
        .total_size(100)
        .tree_config(TreeConfig { fanout: 10, flat_threshold: 50 })
        .build_tree()
        .unwrap();
    assert!(manifest.is_tree());
    assert_eq!(manifest.chunk_count(), 100);
    assert_eq!(manifest.tree_depth(), 1);
    assert_eq!(blocks.len(), 10);
}

#[test]
fn test_tree_builder_custom_fanout() {
    let config = TreeConfig { fanout: 10, flat_threshold: 5 };
    let builder = TreeBuilder::with_config(config);
    let chunks = generate_chunks(100);

    let (children, structure, blocks) = builder.build(chunks).unwrap();

    match structure {
        ManifestStructure::Tree { fanout, .. } => {
            assert_eq!(fanout, 10);
        }
        _ => panic!("Expected tree structure"),
    }

    assert!(!blocks.is_empty());
    assert!(children.len() <= 10);
}

#[test]
fn test_manifest_with_tree_structure() {
    let chunks = generate_chunks(100);

    let (manifest, _blocks) = DocumentManifest::builder()
        .publisher_did(TEST_DID)
        .name("large.bin")
        .chunks(chunks.clone())
        .total_size(25600)
        .tree_config(TreeConfig { fanout: 10, flat_threshold: 50 })
        .build_tree()
        .expect("should build");

    assert!(manifest.is_tree());
    assert_eq!(manifest.chunk_count(), 100);
    assert!(manifest.tree_depth() >= 1);
}

#[test]
fn test_dag_cbor_roundtrip_flat() {
    let manifest = DocumentManifest::builder()
        .publisher_did(TEST_DID)
        .name("test.txt")
        .content_type("text/plain")
        .chunks(sample_chunks())
        .total_size(1024)
        .created_at(1702156800)
        .metadata("key", "value")
        .build_flat()
        .expect("should build");

    let bytes = manifest.to_dag_cbor().expect("should serialize");
    let restored = DocumentManifest::from_dag_cbor(&bytes).expect("should deserialize");

    assert_eq!(manifest, restored);
}

#[test]
fn manifest_test_tree_node_roundtrip() {
    let children = generate_chunks(10);
    let node = TreeNode::new(children.clone(), true);

    let bytes = node.to_dag_cbor().unwrap();
    let restored = TreeNode::from_dag_cbor(&bytes).unwrap();

    assert_eq!(node, restored);
    assert!(restored.is_leaf_level);
}

#[test]
fn test_unicode_name() {
    let manifest = DocumentManifest::builder()
        .publisher_did(TEST_DID)
        .name("文档.pdf")
        .chunks(sample_chunks())
        .total_size(1024)
        .build_flat()
        .expect("should build");

    let bytes = manifest.to_dag_cbor().expect("should serialize");
    let restored = DocumentManifest::from_dag_cbor(&bytes).expect("should deserialize");

    assert_eq!(restored.name, Some("文档.pdf".into()));
}

#[test]
fn tree_manifest_reads_back_from_its_encoding() {
    let manifest = DocumentManifest {
        version: 1,
        name: None,
        content_type: Some("application/octet-stream".to_string()),
        total_size: 70_000,
        structure: ManifestStructure::Tree { depth: 2, fanout: 300, chunk_count: 70_000 },
        children: generate_chunks(3),
        chunking_algorithm: ChunkingAlgorithm::Fixed,
        publisher_did: TEST_DID.to_string(),
        created_at: 5_000_000_000,
        metadata: flow_node::metadata::Metadata::new(),
    };
    let bytes = manifest.to_dag_cbor().unwrap();
    let restored = DocumentManifest::from_dag_cbor(&bytes).unwrap();
    assert_eq!(restored, manifest);
    assert_eq!(restored.to_dag_cbor().unwrap(), bytes);
}

#[test]
fn manifest_decoding_refuses_other_bytes() {
    let manifest = DocumentManifest::builder()
        .publisher_did(TEST_DID)
        .name("a.txt")
        .chunks(sample_chunks())
        .total_size(10)
        .created_at(1)
        .build_flat()
        .unwrap();
    let bytes = manifest.to_dag_cbor().unwrap();

    // A byte after the manifest.
    let mut longer = bytes.clone();
    longer.push(0);
    let err = DocumentManifest::from_dag_cbor(&longer).unwrap_err();
    assert!(err.message().starts_with("Serialization error"));

    // The manifest cut short.
    assert!(DocumentManifest::from_dag_cbor(&bytes[..bytes.len() - 1]).is_err());

    // A map head that counts one entry too many.
    let mut miscounted = bytes.clone();
    miscounted[0] += 1;
    assert!(DocumentManifest::from_dag_cbor(&miscounted).is_err());

    // Empty input, and a tree node where a manifest is expected.
    assert!(DocumentManifest::from_dag_cbor(&[]).is_err());
    let node = TreeNode::new(sample_chunks(), true).to_dag_cbor().unwrap();
    assert!(DocumentManifest::from_dag_cbor(&node).is_err());
}

#[test]
fn tree_node_decoding_refuses_other_bytes() {
    let node = TreeNode::new(sample_chunks(), false);
    let bytes = node.to_dag_cbor().unwrap();
    let restored = TreeNode::from_dag_cbor(&bytes).unwrap();
    assert_eq!(restored, node);
    assert!(!restored.is_leaf_level);

    let mut flipped = bytes.clone();
    let last = flipped.len() - 1;
    flipped[last] = 0xf5;
    assert!(TreeNode::from_dag_cbor(&flipped).unwrap().is_leaf_level);

    flipped[last] = 0x01;
    assert!(TreeNode::from_dag_cbor(&flipped).is_err());
    assert!(TreeNode::from_dag_cbor(&bytes[..bytes.len() - 1]).is_err());
}

#[test]
fn manifest_with_non_shortest_integer_is_refused() {
    let manifest = DocumentManifest::builder()
        .publisher_did(TEST_DID)
        .chunks(sample_chunks())
        .total_size(10)
        .created_at(1)
        .build_flat()
        .unwrap();
    let bytes = manifest.to_dag_cbor().unwrap();
    let key = b"\x67version";
    let at = bytes.windows(key.len()).position(|w| w == key).expect("version key") + key.len();
    assert_eq!(bytes[at], 0x01);

    // The version 1 written with a one-byte argument instead of inline.
    let mut longer = bytes.clone();
    longer.splice(at..at + 1, [0x18, 0x01]);
    assert!(DocumentManifest::from_dag_cbor(&longer).is_err());

    // Version 2 in its shortest form is read as such.
    let mut other = bytes.clone();
    other[at] = 0x02;
    assert_eq!(DocumentManifest::from_dag_cbor(&other).unwrap().version, 2);
}

#[test]
fn manifest_without_structure_reads_as_flat() {
    let manifest = DocumentManifest::builder()
        .publisher_did(TEST_DID)
        .name("old.txt")
        .chunks(sample_chunks())
        .total_size(3)
        .created_at(7)
        .build_flat()
        .unwrap();
    let canonical = manifest.to_dag_cbor().unwrap();

    // The canonical encoding without its structure entry, with one entry fewer in the head.
    let entry = b"\x69structure\xa1\x64type\x64flat";
    let at = canonical.windows(entry.len()).position(|w| w == entry).expect("structure entry");
    let mut old = canonical.clone();
    old.drain(at..at + entry.len());
    old[0] -= 1;

    let restored = DocumentManifest::from_dag_cbor(&old).unwrap();
    assert_eq!(restored, manifest);
    assert!(restored.is_flat());
    assert_eq!(restored.to_dag_cbor().unwrap(), canonical);

    // Without the structure entry the head must count one entry fewer.
    let mut miscounted = old.clone();
    miscounted[0] += 1;
    assert!(DocumentManifest::from_dag_cbor(&miscounted).is_err());
}

#[test]
fn tree_over_at_most_fanout_chunks_has_one_node_level() {
    let chunks = generate_chunks(8);
    let builder = TreeBuilder::with_config(TreeConfig { fanout: 10, flat_threshold: 5 });
    let (children, structure, blocks) = builder.build(chunks.clone()).unwrap();
    assert_eq!(structure, ManifestStructure::Tree { depth: 1, fanout: 10, chunk_count: 8 });
    assert_eq!(blocks.len(), 1);
    assert_eq!(children, vec![blocks[0].cid().clone()]);
    let node = TreeNode::from_dag_cbor(blocks[0].data()).unwrap();
    assert_eq!(node.children, chunks);
    assert!(node.is_leaf_level);
}
