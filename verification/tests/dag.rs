use flow_node::chunking::config::ChunkingConfig;
use flow_node::chunking::ChunkingAlgorithm;
use flow_node::content_id::ContentId;
use flow_node::dag::{check_range, plan_dag, DagError, DagMetadata, DagReader, DagReaderConfig, RangeRead};
use flow_node::error::ContentProviderError;

const TEST_DID: &str = "did:key:z6MkhaXgBZDvotDkL5257faiztiGiC2QtKLGpbnnEGta2doK";

#[test]
fn test_dag_metadata_new() {
    let metadata = DagMetadata::new(TEST_DID);
    assert_eq!(metadata.publisher_did, TEST_DID);
    assert!(metadata.name.is_none());
    assert!(metadata.content_type.is_none());
    assert!(metadata.metadata.is_empty());
}

#[test]
fn test_dag_metadata_builder() {
    let metadata = DagMetadata::new(TEST_DID)
        .name("test.pdf")
        .content_type("application/pdf")
        .with_metadata("author", "Alice");

    assert_eq!(metadata.name, Some("test.pdf".into()));
    assert_eq!(metadata.content_type, Some("application/pdf".into()));
    assert_eq!(metadata.metadata.get("author"), Some("Alice"));
}

#[test]
fn test_error_from_content_provider_error() {
    let cid = ContentId::from_bytes(b"test");
    let provider_err = ContentProviderError::NotFound(cid);
    let dag_err: DagError = provider_err.into();

    assert!(matches!(dag_err, DagError::Provider(_)));
}

#[test]
fn reader_config_batch_size_at_least_one() {
    assert_eq!(DagReaderConfig::with_batch_size(0).batch_size, 1);
    assert_eq!(DagReaderConfig::with_batch_size(7).batch_size, 7);
    assert_eq!(DagReaderConfig::default().batch_size, 50);
    assert_eq!(DagReaderConfig::from_value(None).batch_size, 50);
    assert_eq!(DagReaderConfig::from_value(Some(0)).batch_size, 0);
}

#[test]
fn reader_keeps_provider_and_config() {
    let reader = DagReader::with("provider", DagReaderConfig::with_batch_size(3));
    assert_eq!(*reader.provider(), "provider");
    assert_eq!(reader.config().batch_size, 3);
    let reader = DagReader::with_provider(5u8);
    assert_eq!(*reader.provider(), 5);
    assert_eq!(reader.config().batch_size, 50);
}

fn content(n: usize) -> Vec<u8> {
    (0..n).map(|i| (i % 251) as u8).collect()
}

#[test]
fn plan_reassembles_content_and_links_manifest() {
    let data = content(10_000);
    let chunker = ChunkingAlgorithm::Fixed.create_chunker(ChunkingConfig::new(1024, 4096, 8192));
    let plan = plan_dag(&chunker, &data, DagMetadata::new(TEST_DID).name("file.bin"), 1_700_000_000).unwrap();

    let mut joined = Vec::new();
    for b in &plan.chunk_blocks {
        joined.extend_from_slice(b.data());
        assert!(b.verify());
    }
    assert_eq!(joined, data);
    assert_eq!(plan.chunk_blocks.len(), 3);
    assert_eq!(plan.result.chunks_stored, 3);
    assert_eq!(plan.result.total_bytes, 10_000);
    assert!(plan.tree_blocks.is_empty());
    let manifest = &plan.result.manifest;
    assert_eq!(manifest.chunking_algorithm, ChunkingAlgorithm::Fixed);
    assert_eq!(manifest.name.as_deref(), Some("file.bin"));
    assert_eq!(manifest.total_size, 10_000);
    let ids: Vec<ContentId> = plan.chunk_blocks.iter().map(|b| b.cid().clone()).collect();
    assert_eq!(manifest.children, ids);
    assert_eq!(plan.result.root_cid, manifest.root_cid().unwrap());
    assert_eq!(plan.manifest_block.cid(), &plan.result.root_cid);
}

#[test]
fn plan_empty_content_has_no_chunks() {
    let chunker = ChunkingAlgorithm::FastCdc.create_chunker(ChunkingConfig::default());
    let plan = plan_dag(&chunker, &[], DagMetadata::new(TEST_DID), 1_700_000_000).unwrap();
    assert!(plan.chunk_blocks.is_empty());
    assert_eq!(plan.result.manifest.chunk_count(), 0);
    assert_eq!(plan.result.total_bytes, 0);
    assert!(plan.result.manifest.is_flat());
}

#[test]
fn range_check_rejects_start_past_end() {
    assert!(matches!(
        check_range(10, 20, 10),
        Err(DagError::RangeOutOfBounds { start: 10, end: 20, size: 10 })
    ));
    assert_eq!(check_range(2, 100, 10).unwrap(), (2, 10));
    assert_eq!(check_range(2, 5, 10).unwrap(), (2, 5));
    // A reversed range holds no bytes.
    assert_eq!(check_range(5, 2, 10).unwrap(), (5, 5));
    let mut r = RangeRead::new(5, 2);
    assert!(r.step(&[1, 2, 3]));
    assert!(r.into_bytes().is_empty());
}

fn read_range(chunks: &[Vec<u8>], start: u64, end: u64) -> Vec<u8> {
    let mut r = RangeRead::new(start, end);
    for c in chunks {
        if r.step(c) {
            break;
        }
    }
    r.into_bytes()
}

#[test]
fn range_read_spans_chunks() {
    let data = content(100);
    let chunks: Vec<Vec<u8>> = data.chunks(30).map(|c| c.to_vec()).collect();
    assert_eq!(read_range(&chunks, 25, 65), data[25..65].to_vec());
    assert_eq!(read_range(&chunks, 0, 100), data);
    assert_eq!(read_range(&chunks, 90, 100), data[90..100].to_vec());
    assert_eq!(read_range(&chunks, 30, 30), Vec::<u8>::new());
}

#[test]
fn range_read_stops_once_complete() {
    let mut r = RangeRead::new(0, 10);
    assert!(!r.step(&[1, 2, 3, 4, 5]));
    assert!(r.step(&[6, 7, 8, 9, 10, 11]));
    assert_eq!(r.into_bytes(), vec![1, 2, 3, 4, 5, 6, 7, 8, 9, 10]);
}

#[test]
fn test_error_display() {
    let cid = ContentId::from_bytes(b"test");

    let err = DagError::ManifestNotFound(cid.clone());
    assert!(err.message().contains("Manifest not found"));

    let err = DagError::ChunkNotFound(cid.clone());
    assert!(err.message().contains("Chunk not found"));

    let err = DagError::RangeOutOfBounds { start: 100, end: 200, size: 50 };
    assert!(err.message().contains("out of bounds"));

    let provider_err = ContentProviderError::NotFound(cid);
    let err = DagError::Provider(provider_err);
    assert!(err.message().contains("Content provider error"));
}

#[test]
fn dag_error_messages_are_exact() {
    let err = DagError::RangeOutOfBounds { start: 100, end: 200, size: 50 };
    assert_eq!(err.message(), "Range 100..200 out of bounds for size 50");
    let err = DagError::InvalidManifest("bad".to_string());
    assert_eq!(err.message(), "Invalid manifest: bad");
    let io = std::io::Error::new(std::io::ErrorKind::Other, "disk gone");
    let err = DagError::Io(io);
    assert_eq!(err.message(), "IO error: disk gone");
    let cid = ContentId::from_bytes(b"test");
    let err = DagError::TreeNodeNotFound(cid.clone());
    assert_eq!(err.message(), format!("Tree node not found: {}", cid.to_cid_string()));
}

#[test]
fn batches_cover_all_blocks() {
    assert_eq!(flow_node::dag::batch_bounds(0, 3), vec![]);
    assert_eq!(flow_node::dag::batch_bounds(7, 3), vec![(0, 3), (3, 6), (6, 7)]);
    assert_eq!(flow_node::dag::batch_bounds(6, 3), vec![(0, 3), (3, 6)]);
    assert_eq!(flow_node::dag::batch_bounds(2, 50), vec![(0, 2)]);
    assert_eq!(flow_node::dag::batch_bounds(3, 1), vec![(0, 1), (1, 2), (2, 3)]);
}

#[test]
fn accepted_batches_append_blocks_in_order() {
    let a = flow_node::block::Block::new(b"one".to_vec());
    let b = flow_node::block::Block::new(b"two".to_vec());
    let ids = vec![a.cid().clone(), b.cid().clone()];
    let mut blocks = Vec::new();
    assert!(flow_node::dag::accept_batch(&ids, 0, &vec![Some(a.clone()), Some(b.clone())], &mut blocks).is_ok());
    assert_eq!(blocks.len(), 2);
    assert_eq!(flow_node::dag::content_of(&blocks), b"onetwo".to_vec());
}

#[test]
fn batched_read_gives_content_for_every_batch_size() {
    let pieces: Vec<Vec<u8>> = (0..7u8).map(|i| vec![b'a' + i; (i as usize) + 1]).collect();
    let stored: Vec<flow_node::block::Block> = pieces.iter().map(|p| flow_node::block::Block::new(p.clone())).collect();
    let ids: Vec<ContentId> = stored.iter().map(|b| b.cid().clone()).collect();
    let expected: Vec<u8> = pieces.concat();
    for batch_size in 1..=9usize {
        let mut blocks = Vec::new();
        for (start, end) in flow_node::dag::batch_bounds(ids.len(), batch_size) {
            let results: Vec<Option<flow_node::block::Block>> = stored[start..end].iter().cloned().map(Some).collect();
            assert!(flow_node::dag::accept_batch(&ids, start, &results, &mut blocks).is_ok());
        }
        assert_eq!(blocks.len(), stored.len());
        assert_eq!(flow_node::dag::content_of(&blocks), expected);
    }
}

#[test]
fn missing_block_names_its_identifier() {
    let a = flow_node::block::Block::new(b"one".to_vec());
    let b = flow_node::block::Block::new(b"two".to_vec());
    let ids = vec![a.cid().clone(), b.cid().clone()];
    let mut blocks = Vec::new();
    match flow_node::dag::accept_batch(&ids, 0, &vec![Some(a.clone()), None], &mut blocks) {
        Err(DagError::ChunkNotFound(c)) => assert_eq!(c, ids[1]),
        other => panic!("unexpected {:?}", other.is_ok()),
    }
    assert_eq!(blocks.len(), 1);
    let mut later = Vec::new();
    match flow_node::dag::accept_batch(&ids, 1, &vec![None], &mut later) {
        Err(DagError::ChunkNotFound(c)) => assert_eq!(c, ids[1]),
        other => panic!("unexpected {:?}", other.is_ok()),
    }
    assert!(later.is_empty());
}

#[test]
fn same_content_metadata_and_time_give_the_same_root() {
    let data = content(20_000);
    let chunker = ChunkingAlgorithm::FastCdc.create_chunker(ChunkingConfig::default());
    let md = || DagMetadata::new(TEST_DID).name("same.bin").with_metadata("k", "v");
    let a = plan_dag(&chunker, &data, md(), 1_702_156_800).unwrap();
    let b = plan_dag(&chunker, &data, md(), 1_702_156_800).unwrap();
    assert_eq!(a.result.root_cid, b.result.root_cid);
    assert_eq!(a.result.manifest.created_at, 1_702_156_800);
    let c = plan_dag(&chunker, &data, md(), 1_702_156_801).unwrap();
    assert_ne!(a.result.root_cid, c.result.root_cid);
}
