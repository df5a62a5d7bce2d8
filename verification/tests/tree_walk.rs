use flow_node::block::Block;
use flow_node::content_id::ContentId;
use flow_node::manifest::{DocumentManifest, ManifestStructure, TreeBuilder, TreeConfig, TreeNode};
use flow_node::tree_walk::{TreeWalk, WalkStep};

const TEST_DID: &str = "did:key:z6MkhaXgBZDvotDkL5257faiztiGiC2QtKLGpbnnEGta2doK";

fn generate_chunks(count: usize) -> Vec<ContentId> {
    (0..count)
        .map(|i| ContentId::from_bytes(format!("chunk_{:06}", i).as_bytes()))
        .collect()
}

/// Runs a walk to its end, answering each fetch from `blocks`; returns the chunks given and
/// the number of fetches.
fn run(mut walk: TreeWalk, blocks: &[Block], chunks: &[ContentId]) -> (Vec<ContentId>, usize) {
    let mut out = Vec::new();
    let mut fetches = 0;
    loop {
        match walk.step() {
            WalkStep::Chunk(c) => out.push(c),
            WalkStep::Fetch(id) => {
                fetches += 1;
                let block = blocks.iter().find(|b| *b.cid() == id).expect("node was built");
                let children = block.links().to_vec();
                let is_leaf = children.first().map(|c| chunks.contains(c)).unwrap_or(true);
                walk.visit(children, is_leaf);
            }
            WalkStep::Done => return (out, fetches),
        }
    }
}

#[test]
fn flat_walk_gives_chunks_in_order() {
    let chunks = generate_chunks(4);
    let (out, fetches) = run(TreeWalk::flat(&chunks), &[], &chunks);
    assert_eq!(out, chunks);
    assert_eq!(fetches, 0);
}

#[test]
fn empty_walk_is_done_at_once() {
    let mut walk = TreeWalk::flat(&[]);
    assert!(matches!(walk.step(), WalkStep::Done));
    assert!(matches!(walk.step(), WalkStep::Done));
    let mut tree = TreeWalk::tree(&[]);
    assert!(matches!(tree.step(), WalkStep::Done));
}

#[test]
fn tree_walk_asks_for_the_first_node_first() {
    let top = generate_chunks(2);
    let mut walk = TreeWalk::tree(&top);
    match walk.step() {
        WalkStep::Fetch(id) => assert_eq!(id, top[0]),
        other => panic!("expected a fetch, got {:?}", other),
    }
    walk.visit(generate_chunks(1), true);
    match walk.step() {
        WalkStep::Chunk(c) => assert_eq!(c, generate_chunks(1)[0]),
        other => panic!("expected a chunk, got {:?}", other),
    }
    match walk.step() {
        WalkStep::Fetch(id) => assert_eq!(id, top[1]),
        other => panic!("expected a fetch, got {:?}", other),
    }
}

#[test]
fn walking_a_built_tree_gives_back_its_chunks() {
    let chunks = generate_chunks(10);
    let builder = TreeBuilder::with_config(TreeConfig { fanout: 3, flat_threshold: 3 });
    let (top, structure, blocks) = builder.build(chunks.clone()).unwrap();
    match structure {
        ManifestStructure::Tree { depth, .. } => assert_eq!(depth, 2),
        _ => panic!("expected a tree"),
    }
    assert_eq!(top.len(), 2);
    let (out, fetches) = run(TreeWalk::tree(&top), &blocks, &chunks);
    assert_eq!(out, chunks);
    assert_eq!(fetches, blocks.len());
}

#[test]
fn walking_a_large_default_tree_gives_back_its_chunks() {
    let chunks = generate_chunks(50_000);
    let (manifest, blocks) = DocumentManifest::builder()
        .publisher_did(TEST_DID)
        .chunks(chunks.clone())
        .total_size(50_000)
        .build_tree()
        .unwrap();
    assert!(manifest.is_tree());
    let (out, fetches) = run(TreeWalk::of_manifest(&manifest), &blocks, &chunks);
    assert_eq!(out.len(), chunks.len());
    assert!(out == chunks);
    assert_eq!(fetches, blocks.len());
}

#[test]
fn walk_of_flat_manifest_gives_its_children() {
    let chunks = generate_chunks(3);
    let manifest = DocumentManifest::builder()
        .publisher_did(TEST_DID)
        .chunks(chunks.clone())
        .total_size(10)
        .build_flat()
        .unwrap();
    let (out, fetches) = run(TreeWalk::of_manifest(&manifest), &[], &chunks);
    assert_eq!(out, chunks);
    assert_eq!(fetches, 0);
}

fn all_chunks(manifest: &DocumentManifest, blocks: &[Block], chunks: &[ContentId]) -> Vec<ContentId> {
    run(TreeWalk::of_manifest(manifest), blocks, chunks).0
}

#[test]
fn test_tree_reader_get_all_chunks() {
    let chunks = generate_chunks(100);

    let (manifest, blocks) = DocumentManifest::builder()
        .publisher_did(TEST_DID)
        .chunks(chunks.clone())
        .total_size(25600)
        .tree_config(TreeConfig { fanout: 10, flat_threshold: 50 })
        .build_tree()
        .expect("should build");

    let result = all_chunks(&manifest, &blocks, &chunks);

    assert_eq!(result.len(), chunks.len());
    assert_eq!(result, chunks);
}

#[test]
fn test_tree_reader_flat_manifest() {
    let chunks = generate_chunks(10);

    let manifest = DocumentManifest::builder()
        .publisher_did(TEST_DID)
        .chunks(chunks.clone())
        .total_size(1024)
        .build_flat()
        .unwrap();

    let result = all_chunks(&manifest, &[], &chunks);

    assert_eq!(result, chunks);
}

#[test]
fn test_tree_reader_tree_manifest() {
    let chunks = generate_chunks(100);

    let (manifest, blocks) = DocumentManifest::builder()
        .publisher_did(TEST_DID)
        .chunks(chunks.clone())
        .total_size(25600)
        .tree_config(TreeConfig { fanout: 10, flat_threshold: 5 })
        .build_tree()
        .unwrap();

    assert!(manifest.is_tree());

    let result = all_chunks(&manifest, &blocks, &chunks);

    assert_eq!(result.len(), chunks.len());
    assert_eq!(result, chunks);
}

#[test]
fn manifest_test_tree_chunk_iterator() {
    let chunks = generate_chunks(50);

    let (manifest, blocks) = DocumentManifest::builder()
        .publisher_did(TEST_DID)
        .chunks(chunks.clone())
        .total_size(12800)
        .tree_config(TreeConfig { fanout: 5, flat_threshold: 3 })
        .build_tree()
        .unwrap();

    let iterated = all_chunks(&manifest, &blocks, &chunks);

    assert_eq!(iterated, chunks);
}

/// Reads all chunks of a manifest, decoding each tree node fetched from `blocks`.
fn read_chunks_through_nodes(manifest: &DocumentManifest, blocks: &[Block]) -> Vec<ContentId> {
    let mut walk = TreeWalk::of_manifest(manifest);
    let mut out = Vec::new();
    loop {
        match walk.step() {
            WalkStep::Chunk(c) => out.push(c),
            WalkStep::Fetch(id) => {
                let block = blocks.iter().find(|b| *b.cid() == id).expect("node was stored");
                let node = TreeNode::from_dag_cbor(block.data()).expect("node decodes");
                walk.visit(node.children, node.is_leaf_level);
            }
            WalkStep::Done => return out,
        }
    }
}

#[test]
fn test_full_roundtrip_with_tree() {
    let original_chunks = generate_chunks(200);

    let (manifest, mut store) = DocumentManifest::builder()
        .publisher_did(TEST_DID)
        .name("big_file.bin")
        .chunks(original_chunks.clone())
        .total_size(51200)
        .tree_config(TreeConfig {
            fanout: 20,
            flat_threshold: 50,
        })
        .build_tree()
        .expect("should build");

    let manifest_block = manifest.to_block().unwrap();
    let root = manifest_block.cid().clone();
    store.push(manifest_block);

    let retrieved = store.iter().find(|b| *b.cid() == root).unwrap();
    let restored = DocumentManifest::from_dag_cbor(retrieved.data()).unwrap();

    assert_eq!(restored.name, Some("big_file.bin".into()));
    assert!(restored.is_tree());
    assert_eq!(restored.chunk_count(), 200);

    let read_chunks = read_chunks_through_nodes(&restored, &store);

    assert_eq!(read_chunks, original_chunks);
}

#[test]
fn test_manifest_tree_full_roundtrip() {
    let original_chunks = generate_chunks(1000);

    let (manifest, mut store) = DocumentManifest::builder()
        .publisher_did(TEST_DID)
        .name("large_file.bin")
        .chunks(original_chunks.clone())
        .total_size(256_000_000)
        .tree_config(TreeConfig {
            fanout: 50,
            flat_threshold: 100,
        })
        .build_tree()
        .unwrap();

    assert!(manifest.is_tree());
    assert_eq!(manifest.chunk_count(), 1000);

    let manifest_block = manifest.to_block().unwrap();
    let root = manifest_block.cid().clone();
    store.push(manifest_block);

    let retrieved = store.iter().find(|b| *b.cid() == root).unwrap();
    let restored = DocumentManifest::from_dag_cbor(retrieved.data()).unwrap();

    assert_eq!(restored.name, Some("large_file.bin".into()));
    assert!(restored.is_tree());

    let read_chunks = read_chunks_through_nodes(&restored, &store);

    assert_eq!(read_chunks, original_chunks);
}

/// Lists every chunk under the top nodes at once, depth first.
fn eager_listing(top: &[ContentId], blocks: &[Block]) -> Vec<ContentId> {
    let mut out = Vec::new();
    for id in top {
        let block = blocks.iter().find(|b| b.cid() == id).expect("node was built");
        let node = TreeNode::from_dag_cbor(block.data()).expect("node decodes");
        if node.is_leaf_level {
            out.extend(node.children.iter().cloned());
        } else {
            out.extend(eager_listing(&node.children, blocks));
        }
    }
    out
}

#[test]
fn lazy_walk_matches_full_listing() {
    let chunks = generate_chunks(50);
    let builder = TreeBuilder::with_config(TreeConfig { fanout: 5, flat_threshold: 10 });
    let (top, _structure, blocks) = builder.build(chunks.clone()).unwrap();
    let (lazy, _) = run(TreeWalk::tree(&top), &blocks, &chunks);
    let eager = eager_listing(&top, &blocks);
    assert_eq!(lazy, eager);
    assert_eq!(eager, chunks);
}
