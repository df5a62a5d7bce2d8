//! The library's DAG-CBOR encodings against `serde_ipld_dagcbor` run on serde forms written
//! field for field after the node's serialized types (CIDs as byte strings, optional fields
//! and empty metadata left out, the structure tagged by `type`).

use serde::ser::{SerializeMap, SerializeSeq, SerializeStruct};
use serde::{Serialize, Serializer};

use flow_node::block::Block;
use flow_node::chunking::ChunkingAlgorithm;
use flow_node::content_id::ContentId;
use flow_node::manifest::{DocumentManifest, ManifestStructure, TreeConfig, TreeNode};

const TEST_DID: &str = "did:key:z6MkhaXgBZDvotDkL5257faiztiGiC2QtKLGpbnnEGta2doK";

struct Cids<'a>(&'a [ContentId]);

impl Serialize for Cids<'_> {
    fn serialize<S: Serializer>(&self, s: S) -> Result<S::Ok, S::Error> {
        let mut seq = s.serialize_seq(Some(self.0.len()))?;
        for c in self.0 {
            seq.serialize_element(&CidBytes(c.to_bytes()))?;
        }
        seq.end()
    }
}

struct CidBytes(Vec<u8>);

impl Serialize for CidBytes {
    fn serialize<S: Serializer>(&self, s: S) -> Result<S::Ok, S::Error> {
        s.serialize_bytes(&self.0)
    }
}

struct NodeForm<'a>(&'a TreeNode);

impl Serialize for NodeForm<'_> {
    fn serialize<S: Serializer>(&self, s: S) -> Result<S::Ok, S::Error> {
        let mut st = s.serialize_struct("TreeNode", 2)?;
        st.serialize_field("children", &Cids(&self.0.children))?;
        st.serialize_field("is_leaf_level", &self.0.is_leaf_level)?;
        st.end()
    }
}

struct StructureForm(ManifestStructure);

impl Serialize for StructureForm {
    fn serialize<S: Serializer>(&self, s: S) -> Result<S::Ok, S::Error> {
        match self.0 {
            ManifestStructure::Flat => {
                let mut st = s.serialize_struct("ManifestStructure", 1)?;
                st.serialize_field("type", "flat")?;
                st.end()
            }
            ManifestStructure::Tree { depth, fanout, chunk_count } => {
                let mut st = s.serialize_struct("ManifestStructure", 4)?;
                st.serialize_field("type", "tree")?;
                st.serialize_field("depth", &depth)?;
                st.serialize_field("fanout", &fanout)?;
                st.serialize_field("chunk_count", &chunk_count)?;
                st.end()
            }
        }
    }
}

struct MetadataForm<'a>(&'a [(String, String)]);

impl Serialize for MetadataForm<'_> {
    fn serialize<S: Serializer>(&self, s: S) -> Result<S::Ok, S::Error> {
        let mut m = s.serialize_map(Some(self.0.len()))?;
        for (k, v) in self.0 {
            m.serialize_entry(k, v)?;
        }
        m.end()
    }
}

struct ManifestForm<'a>(&'a DocumentManifest);

impl Serialize for ManifestForm<'_> {
    fn serialize<S: Serializer>(&self, s: S) -> Result<S::Ok, S::Error> {
        let m = self.0;
        let len = 7 + usize::from(m.name.is_some()) + usize::from(m.content_type.is_some()) + usize::from(!m.metadata.is_empty());
        let mut st = s.serialize_struct("DocumentManifest", len)?;
        st.serialize_field("version", &m.version)?;
        if let Some(name) = &m.name {
            st.serialize_field("name", name)?;
        }
        if let Some(ct) = &m.content_type {
            st.serialize_field("content_type", ct)?;
        }
        st.serialize_field("total_size", &m.total_size)?;
        st.serialize_field("structure", &StructureForm(m.structure))?;
        st.serialize_field("children", &Cids(&m.children))?;
        st.serialize_field("chunking_algorithm", m.chunking_algorithm.name())?;
        st.serialize_field("publisher_did", &m.publisher_did)?;
        st.serialize_field("created_at", &m.created_at)?;
        if !m.metadata.is_empty() {
            st.serialize_field("metadata", &MetadataForm(m.metadata.entries()))?;
        }
        st.end()
    }
}

fn generate_chunks(count: usize) -> Vec<ContentId> {
    (0..count)
        .map(|i| ContentId::from_bytes(format!("chunk_{:06}", i).as_bytes()))
        .collect()
}

#[test]
fn flat_manifest_with_children_matches_serde_encoding() {
    let manifest = DocumentManifest::builder()
        .publisher_did(TEST_DID)
        .name("golden.txt")
        .content_type("text/plain")
        .chunks(generate_chunks(5))
        .total_size(1234)
        .created_at(1702156800)
        .chunking_algorithm(ChunkingAlgorithm::Rabin)
        .metadata("author", "Alice")
        .metadata("a-much-longer-key", "x")
        .build_flat()
        .unwrap();
    let expected = serde_ipld_dagcbor::to_vec(&ManifestForm(&manifest)).unwrap();
    assert_eq!(manifest.to_dag_cbor().unwrap(), expected);
    assert_eq!(manifest.root_cid().unwrap(), ContentId::from_dag_cbor(&expected));
    assert_eq!(DocumentManifest::from_dag_cbor(&expected).unwrap(), manifest);
}

#[test]
fn tree_manifest_and_nodes_match_serde_encoding() {
    let (manifest, blocks) = DocumentManifest::builder()
        .publisher_did(TEST_DID)
        .chunks(generate_chunks(120))
        .total_size(120 * 256)
        .created_at(1)
        .tree_config(TreeConfig { fanout: 7, flat_threshold: 10 })
        .build_tree()
        .unwrap();
    assert!(manifest.is_tree());
    let expected = serde_ipld_dagcbor::to_vec(&ManifestForm(&manifest)).unwrap();
    assert_eq!(manifest.to_dag_cbor().unwrap(), expected);
    for block in &blocks {
        let node = TreeNode::from_dag_cbor(block.data()).unwrap();
        let node_bytes = serde_ipld_dagcbor::to_vec(&NodeForm(&node)).unwrap();
        assert_eq!(block.data(), &node_bytes[..]);
        assert_eq!(block.cid(), &ContentId::from_dag_cbor(&node_bytes));
    }
}

#[test]
fn stored_block_bytes_match_serde_encoding_of_the_pair() {
    let links = generate_chunks(3);
    let block = Block::with_links(b"payload".to_vec(), links.clone());
    let link_bytes: Vec<Vec<u8>> = links.iter().map(|c| c.to_bytes()).collect();
    let expected = serde_ipld_dagcbor::to_vec(&(b"payload".to_vec(), link_bytes)).unwrap();
    assert_eq!(block.to_stored_bytes().unwrap(), expected);
}
