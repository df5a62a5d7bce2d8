//! Document manifests: the root block of a published document, holding its metadata and the
//! identifiers of its chunks, directly (flat) or through a Merkle tree of intermediate nodes.
//!
//! A manifest is encoded as canonical DAG-CBOR; the identifier of that encoding is the
//! document's identity in the network.

use vstd::prelude::*;

use crate::block::{copy_ids, ids_view, link_bytes, parse_links, Block};
use crate::chunking::ChunkingAlgorithm;
use crate::content_id::{id_of, ContentId, DAG_CBOR_CODEC};
use crate::dag_cbor::{
    cbor_array_head, cbor_bool, cbor_byte_items, cbor_bytes, cbor_map_head, cbor_text, cbor_uint,
    push_bool, push_bytes, push_head, push_text, push_uint,
};
use crate::error::BlockStoreError;
use crate::metadata::{keys_ordered, pairs_view, value_of, Metadata};

verus! {

/// Current manifest schema version.
pub const MANIFEST_VERSION: u32 = 1;

/// Default fanout of tree nodes (children per node): 174 links of about 40 bytes stay well
/// under the block size limit.
pub const DEFAULT_TREE_FANOUT: usize = 174;

/// Chunk count above which a manifest uses a tree instead of a flat chunk list.
pub const FLAT_CHUNK_THRESHOLD: usize = 40000;

/// The view of an identifier.
pub type IdView = (u64, u64, u64, Seq<u8>);

/// The view of a block: identifier, data, links.
pub type BlockView = (IdView, Seq<u8>, Seq<IdView>);

// ---------------------------------------------------------------------------------------------
// Encoding
// ---------------------------------------------------------------------------------------------

/// The serialized name of a chunking algorithm.
pub open spec fn algorithm_text(a: ChunkingAlgorithm) -> Seq<char> {
    match a {
        ChunkingAlgorithm::Fixed => "fixed"@,
        ChunkingAlgorithm::FastCdc => "fastcdc"@,
        ChunkingAlgorithm::Rabin => "rabin"@,
    }
}

/// A list of identifiers: an array of their binary forms as byte strings.
pub open spec fn children_cbor(ids: Seq<IdView>) -> Seq<u8> {
    cbor_array_head(ids.len()) + cbor_byte_items(link_bytes(ids))
}

/// Key-value pairs one after the other, keys and values as text.
pub open spec fn pair_items(s: Seq<(Seq<char>, Seq<char>)>) -> Seq<u8>
    decreases s.len(),
{
    if s.len() == 0 {
        Seq::empty()
    } else {
        pair_items(s.drop_last()) + cbor_text(s.last().0) + cbor_text(s.last().1)
    }
}

/// Metadata: a map of text to text, in canonical key order.
pub open spec fn metadata_cbor(s: Seq<(Seq<char>, Seq<char>)>) -> Seq<u8> {
    cbor_map_head(s.len()) + pair_items(s)
}

/// The structure of a manifest: a map tagged by `type`, with the tree parameters for a tree.
pub open spec fn structure_cbor(s: ManifestStructure) -> Seq<u8> {
    match s {
        ManifestStructure::Flat => cbor_map_head(1) + cbor_text("type"@) + cbor_text("flat"@),
        ManifestStructure::Tree { depth, fanout, chunk_count } => cbor_map_head(4) + cbor_text("type"@)
            + cbor_text("tree"@) + cbor_text("depth"@) + cbor_uint(depth as nat) + cbor_text("fanout"@)
            + cbor_uint(fanout as nat) + cbor_text("chunk_count"@) + cbor_uint(chunk_count as nat),
    }
}

/// A tree node: its children and whether they are chunks.
pub open spec fn tree_node_cbor(children: Seq<IdView>, is_leaf_level: bool) -> Seq<u8> {
    cbor_map_head(2) + cbor_text("children"@) + children_cbor(children) + cbor_text("is_leaf_level"@)
        + cbor_bool(is_leaf_level)
}

/// The number of entries a manifest's map has: the absent name, content type and empty
/// metadata are left out.
pub open spec fn manifest_field_count(m: DocumentManifest) -> nat {
    7 + (if m.name is Some { 1nat } else { 0 }) + (if m.content_type is Some { 1nat } else { 0 }) + (
    if m.metadata@.len() > 0 { 1nat } else { 0 })
}

/// An optional text field, as key and value, or nothing.
pub open spec fn optional_text(key: Seq<char>, value: Option<String>) -> Seq<u8> {
    match value {
        Some(v) => cbor_text(key) + cbor_text(v@),
        None => Seq::empty(),
    }
}

/// The map head and the entries up to the children.
pub open spec fn manifest_leading(m: DocumentManifest) -> Seq<u8> {
    cbor_map_head(manifest_field_count(m)) + optional_text("name"@, m.name) + cbor_text("version"@)
        + cbor_uint(m.version as nat) + cbor_text("children"@) + children_cbor(ids_view(m.children@))
}

/// The entries from the metadata to the total size.
pub open spec fn manifest_middle(m: DocumentManifest) -> Seq<u8> {
    (if m.metadata@.len() > 0 { cbor_text("metadata"@) + metadata_cbor(m.metadata@) } else { Seq::empty() })
        + cbor_text("structure"@) + structure_cbor(m.structure) + cbor_text("created_at"@)
        + cbor_uint(m.created_at as nat) + cbor_text("total_size"@) + cbor_uint(m.total_size as nat)
}

/// The entries from the content type to the chunking algorithm.
pub open spec fn manifest_trailing(m: DocumentManifest) -> Seq<u8> {
    optional_text("content_type"@, m.content_type) + cbor_text("publisher_did"@) + cbor_text(m.publisher_did@)
        + cbor_text("chunking_algorithm"@) + cbor_text(algorithm_text(m.chunking_algorithm))
}

/// A manifest that its encoding can give back: its metadata keys in canonical order (as
/// metadata always keeps them) and each child identifier read back as itself from its binary
/// form (as the `cid` crate reads back what it writes). Every manifest that has been encoded
/// is one.
pub open spec fn decodable(m: DocumentManifest) -> bool {
    &&& keys_ordered(m.metadata@)
    &&& parse_links(link_bytes(ids_view(m.children@))) == Some(ids_view(m.children@))
}

/// The canonical DAG-CBOR encoding of a manifest: a map whose keys come in canonical order
/// (shorter keys first, then byte by byte): name, version, children, metadata, structure,
/// created_at, total_size, content_type, publisher_did, chunking_algorithm.
pub open spec fn manifest_cbor(m: DocumentManifest) -> Seq<u8> {
    manifest_leading(m) + manifest_middle(m) + manifest_trailing(m)
}

/// Appends a list of identifiers.
fn push_children(out: &mut Vec<u8>, ids: &[ContentId])
    ensures
        final(out)@ == old(out)@ + children_cbor(ids_view(ids@)),
        parse_links(link_bytes(ids_view(ids@))) == Some(ids_view(ids@)),
{
    push_head(out, 4, ids.len() as u64);
    let ghost start = out@;
    proof {
        assert(ids_view(ids@.subrange(0, 0)) =~= Seq::<IdView>::empty());
        assert(link_bytes(ids_view(ids@.subrange(0, 0))) =~= Seq::<Seq<u8>>::empty());
    }
    let mut i: usize = 0;
    while i < ids.len()
        invariant
            i <= ids@.len(),
            out@ == start + cbor_byte_items(link_bytes(ids_view(ids@.subrange(0, i as int)))),
            parse_links(link_bytes(ids_view(ids@.subrange(0, i as int)))) == Some(ids_view(ids@.subrange(0, i as int))),
        decreases ids@.len() - i,
    {
        let b = ids[i].to_bytes();
        push_bytes(out, b.as_slice());
        proof {
            let pre = ids@.subrange(0, i as int);
            let next = ids@.subrange(0, i + 1);
            assert(next =~= pre.push(ids@[i as int]));
            assert(ids_view(next) =~= ids_view(pre).push(ids@[i as int]@));
            assert(link_bytes(ids_view(next)) =~= link_bytes(ids_view(pre)).push(b@));
            assert(link_bytes(ids_view(next)).drop_last() =~= link_bytes(ids_view(pre)));
            assert(link_bytes(ids_view(next)).last() == b@);
            assert(parse_links(link_bytes(ids_view(next))) == Some(ids_view(next)));
        }
        i = i + 1;
        assert(out@ =~= start + cbor_byte_items(link_bytes(ids_view(ids@.subrange(0, i as int)))));
    }
    assert(ids@.subrange(0, ids@.len() as int) =~= ids@);
    assert(final(out)@ =~= old(out)@ + children_cbor(ids_view(ids@)));
}

/// Appends metadata.
fn push_metadata(out: &mut Vec<u8>, m: &Metadata)
    ensures
        final(out)@ == old(out)@ + metadata_cbor(m@),
        keys_ordered(m@),
{
    let entries = m.entries();
    push_head(out, 5, entries.len() as u64);
    let ghost start = out@;
    let mut i: usize = 0;
    while i < entries.len()
        invariant
            i <= entries@.len(),
            pairs_view(entries@) == m@,
            out@ == start + pair_items(m@.subrange(0, i as int)),
        decreases entries@.len() - i,
    {
        push_text(out, entries[i].0.as_str());
        push_text(out, entries[i].1.as_str());
        proof {
            let next = m@.subrange(0, i + 1);
            assert(next.drop_last() =~= m@.subrange(0, i as int));
            assert(next.last() == m@[i as int]);
        }
        i = i + 1;
        assert(out@ =~= start + pair_items(m@.subrange(0, i as int)));
    }
    assert(m@.subrange(0, m@.len() as int) =~= m@);
    assert(final(out)@ =~= old(out)@ + metadata_cbor(m@));
}

/// Appends a manifest structure.
fn push_structure(out: &mut Vec<u8>, s: ManifestStructure)
    ensures
        final(out)@ == old(out)@ + structure_cbor(s),
{
    match s {
        ManifestStructure::Flat => {
            push_head(out, 5, 1);
            push_text(out, "type");
            push_text(out, "flat");
        },
        ManifestStructure::Tree { depth, fanout, chunk_count } => {
            push_head(out, 5, 4);
            push_text(out, "type");
            push_text(out, "tree");
            push_text(out, "depth");
            push_uint(out, depth as u64);
            push_text(out, "fanout");
            push_uint(out, fanout as u64);
            push_text(out, "chunk_count");
            push_uint(out, chunk_count);
        },
    }
    assert(final(out)@ =~= old(out)@ + structure_cbor(s));
}

// ---------------------------------------------------------------------------------------------
// ManifestStructure
// ---------------------------------------------------------------------------------------------

/// How a manifest refers to its chunks.
#[derive(Debug, Clone, Copy, PartialEq, Eq, Structural)]
pub enum ManifestStructure {
    /// The manifest's children are the chunk identifiers (small files).
    Flat,
    /// The manifest's children are tree nodes above the chunks (large files).
    Tree {
        /// Tree depth (1 = one level of nodes above the chunks).
        depth: u8,
        /// Maximum children per node.
        fanout: u16,
        /// Total chunk count.
        chunk_count: u64,
    },
}

impl Default for ManifestStructure {
    fn default() -> (r: Self)
        ensures
            r == ManifestStructure::Flat,
    {
        ManifestStructure::Flat
    }
}

// ---------------------------------------------------------------------------------------------
// DocumentManifest
// ---------------------------------------------------------------------------------------------

/// Document manifest: metadata and references to all chunks of a published document.
#[derive(Debug, PartialEq, Eq)]
pub struct DocumentManifest {
    /// Schema version.
    pub version: u32,
    /// Original file name, if known.
    pub name: Option<String>,
    /// MIME type, if known.
    pub content_type: Option<String>,
    /// Total size of the original content in bytes.
    pub total_size: u64,
    /// Flat or tree structure.
    pub structure: ManifestStructure,
    /// Chunk identifiers (flat) or tree node identifiers (tree).
    pub children: Vec<ContentId>,
    /// Algorithm used for chunking.
    pub chunking_algorithm: ChunkingAlgorithm,
    /// Publisher's DID.
    pub publisher_did: String,
    /// Creation time (Unix epoch seconds).
    pub created_at: u64,
    /// Extensible key-value metadata.
    pub metadata: Metadata,
}

impl DocumentManifest {
    /// A builder with default values.
    pub fn builder() -> (r: DocumentManifestBuilder)
        ensures
            r.is_fresh(),
    {
        DocumentManifestBuilder::new()
    }

    /// The canonical DAG-CBOR encoding of this manifest.
    pub fn to_dag_cbor(&self) -> (r: Result<Vec<u8>, BlockStoreError>)
        ensures
            r matches Ok(b) && b@ == manifest_cbor(*self),
            decodable(*self),
    {
        let mut out: Vec<u8> = Vec::new();
        self.push_leading(&mut out);
        self.push_middle(&mut out);
        self.push_trailing(&mut out);
        assert(out@ =~= manifest_cbor(*self));
        Ok(out)
    }

    fn push_leading(&self, out: &mut Vec<u8>)
        ensures
            final(out)@ == old(out)@ + manifest_leading(*self),
            parse_links(link_bytes(ids_view(self.children@))) == Some(ids_view(self.children@)),
    {
        let n: u64 = 7 + (if self.name.is_some() { 1u64 } else { 0 }) + (if self.content_type.is_some() { 1u64 } else { 0 }) + (
        if self.metadata.is_empty() { 0u64 } else { 1 });
        push_head(out, 5, n);
        match &self.name {
            Some(v) => {
                push_text(out, "name");
                push_text(out, v.as_str());
            },
            None => {},
        }
        push_text(out, "version");
        push_uint(out, self.version as u64);
        push_text(out, "children");
        push_children(out, self.children.as_slice());
        assert(final(out)@ =~= old(out)@ + manifest_leading(*self));
    }

    fn push_middle(&self, out: &mut Vec<u8>)
        ensures
            final(out)@ == old(out)@ + manifest_middle(*self),
            keys_ordered(self.metadata@),
    {
        if !self.metadata.is_empty() {
            push_text(out, "metadata");
            push_metadata(out, &self.metadata);
        }
        push_text(out, "structure");
        push_structure(out, self.structure);
        push_text(out, "created_at");
        push_uint(out, self.created_at);
        push_text(out, "total_size");
        push_uint(out, self.total_size);
        assert(final(out)@ =~= old(out)@ + manifest_middle(*self));
    }

    fn push_trailing(&self, out: &mut Vec<u8>)
        ensures
            final(out)@ == old(out)@ + manifest_trailing(*self),
    {
        match &self.content_type {
            Some(v) => {
                push_text(out, "content_type");
                push_text(out, v.as_str());
            },
            None => {},
        }
        push_text(out, "publisher_did");
        push_text(out, self.publisher_did.as_str());
        push_text(out, "chunking_algorithm");
        push_text(out, self.chunking_algorithm.name());
        assert(final(out)@ =~= old(out)@ + manifest_trailing(*self));
    }

    /// The root identifier of this manifest: the DAG-CBOR identifier of its encoding.
    pub fn root_cid(&self) -> (r: Result<ContentId, BlockStoreError>)
        ensures
            r matches Ok(c) && c@ == id_of(DAG_CBOR_CODEC, manifest_cbor(*self)),
    {
        let bytes = match self.to_dag_cbor() {
            Ok(b) => b,
            Err(e) => return Err(e),
        };
        Ok(ContentId::from_dag_cbor(bytes.as_slice()))
    }

    /// The manifest as a block: its encoding, linking to all children.
    pub fn to_block(&self) -> (r: Result<Block, BlockStoreError>)
        ensures
            r matches Ok(b) && b@ == (id_of(DAG_CBOR_CODEC, manifest_cbor(*self)), manifest_cbor(*self), ids_view(self.children@)),
    {
        let bytes = match self.to_dag_cbor() {
            Ok(b) => b,
            Err(e) => return Err(e),
        };
        let links = copy_ids(self.children.as_slice());
        Ok(Block::from_dag_cbor(bytes, links))
    }

    /// Whether this manifest uses a tree structure.
    pub fn is_tree(&self) -> (r: bool)
        ensures
            r == (self.structure is Tree),
    {
        match self.structure {
            ManifestStructure::Tree { .. } => true,
            ManifestStructure::Flat => false,
        }
    }

    /// Whether this manifest uses a flat structure.
    pub fn is_flat(&self) -> (r: bool)
        ensures
            r == (self.structure is Flat),
    {
        match self.structure {
            ManifestStructure::Flat => true,
            ManifestStructure::Tree { .. } => false,
        }
    }

    /// The total chunk count: the number of children of a flat manifest, the stored count of a
    /// tree manifest.
    pub fn chunk_count(&self) -> (r: usize)
        ensures
            r == match self.structure {
                ManifestStructure::Flat => self.children@.len() as usize,
                ManifestStructure::Tree { chunk_count, .. } => chunk_count as usize,
            },
    {
        match self.structure {
            ManifestStructure::Flat => self.children.len(),
            ManifestStructure::Tree { chunk_count, .. } => chunk_count as usize,
        }
    }

    /// The tree depth (0 for a flat manifest).
    pub fn tree_depth(&self) -> (r: u8)
        ensures
            r == match self.structure {
                ManifestStructure::Flat => 0u8,
                ManifestStructure::Tree { depth, .. } => depth,
            },
    {
        match self.structure {
            ManifestStructure::Flat => 0,
            ManifestStructure::Tree { depth, .. } => depth,
        }
    }

    /// Whether the manifest has a name.
    pub fn has_name(&self) -> (r: bool)
        ensures
            r == (self.name is Some),
    {
        self.name.is_some()
    }

    /// Whether the manifest has a content type.
    pub fn has_content_type(&self) -> (r: bool)
        ensures
            r == (self.content_type is Some),
    {
        self.content_type.is_some()
    }

    /// The metadata value stored under `key`.
    pub fn get_metadata(&self, key: &str) -> (r: Option<&str>)
        ensures
            match value_of(self.metadata@, key@) {
                Some(v) => r matches Some(x) && x@ == v,
                None => r is None,
            },
    {
        self.metadata.get(key)
    }

    /// Adds or replaces a metadata entry.
    pub fn set_metadata(&mut self, key: &str, value: &str)
        ensures
            value_of(final(self).metadata@, key@) == Some(value@),
            forall|k: Seq<char>| k != key@ ==> #[trigger] value_of(final(self).metadata@, k) == value_of(old(self).metadata@, k),
            final(self).version == old(self).version,
            final(self).name == old(self).name,
            final(self).content_type == old(self).content_type,
            final(self).total_size == old(self).total_size,
            final(self).structure == old(self).structure,
            final(self).children == old(self).children,
            final(self).chunking_algorithm == old(self).chunking_algorithm,
            final(self).publisher_did == old(self).publisher_did,
            final(self).created_at == old(self).created_at,
    {
        self.metadata.insert(key.to_owned(), value.to_owned());
    }
}

// ---------------------------------------------------------------------------------------------
// TreeNode
// ---------------------------------------------------------------------------------------------

/// Intermediate node of a manifest tree: links to chunks (leaf level) or to other nodes.
#[derive(Debug, PartialEq, Eq)]
pub struct TreeNode {
    /// Child identifiers (nodes or chunks, depending on the level).
    pub children: Vec<ContentId>,
    /// Whether the children are chunks.
    pub is_leaf_level: bool,
}

impl TreeNode {
    /// A node with the given children.
    pub fn new(children: Vec<ContentId>, is_leaf_level: bool) -> (r: Self)
        ensures
            r.children == children,
            r.is_leaf_level == is_leaf_level,
    {
        TreeNode { children, is_leaf_level }
    }

    /// The canonical DAG-CBOR encoding of this node.
    pub fn to_dag_cbor(&self) -> (r: Result<Vec<u8>, BlockStoreError>)
        ensures
            r matches Ok(b) && b@ == tree_node_cbor(ids_view(self.children@), self.is_leaf_level),
            parse_links(link_bytes(ids_view(self.children@))) == Some(ids_view(self.children@)),
    {
        let mut out: Vec<u8> = Vec::new();
        push_head(&mut out, 5, 2);
        push_text(&mut out, "children");
        push_children(&mut out, self.children.as_slice());
        push_text(&mut out, "is_leaf_level");
        push_bool(&mut out, self.is_leaf_level);
        assert(out@ =~= tree_node_cbor(ids_view(self.children@), self.is_leaf_level));
        Ok(out)
    }

    /// The node as a block: its encoding, linking to its children.
    pub fn to_block(&self) -> (r: Result<Block, BlockStoreError>)
        ensures
            r matches Ok(b) && b@ == node_block(ids_view(self.children@), self.is_leaf_level),
    {
        let bytes = match self.to_dag_cbor() {
            Ok(b) => b,
            Err(e) => return Err(e),
        };
        let links = copy_ids(self.children.as_slice());
        Ok(Block::from_dag_cbor(bytes, links))
    }

    /// The identifier of this node.
    pub fn cid(&self) -> (r: Result<ContentId, BlockStoreError>)
        ensures
            r matches Ok(c) && c@ == id_of(DAG_CBOR_CODEC, tree_node_cbor(ids_view(self.children@), self.is_leaf_level)),
    {
        let bytes = match self.to_dag_cbor() {
            Ok(b) => b,
            Err(e) => return Err(e),
        };
        Ok(ContentId::from_dag_cbor(bytes.as_slice()))
    }
}

/// The block of a tree node with the given children.
pub open spec fn node_block(children: Seq<IdView>, is_leaf_level: bool) -> BlockView {
    (id_of(DAG_CBOR_CODEC, tree_node_cbor(children, is_leaf_level)), tree_node_cbor(children, is_leaf_level), children)
}

// ---------------------------------------------------------------------------------------------
// Tree building
// ---------------------------------------------------------------------------------------------

/// The block views of a list of blocks.
pub open spec fn blocks_view(s: Seq<Block>) -> Seq<BlockView> {
    s.map_values(|b: Block| b@)
}

/// The number of groups of at most `f` items that `n` items fall into.
pub open spec fn group_count(n: nat, f: nat) -> nat {
    if n % f == 0 { n / f } else { n / f + 1 }
}

/// Where the `k`-th group of at most `f` items ends among `n` items.
pub open spec fn group_end(n: nat, f: nat, k: nat) -> nat {
    if (k + 1) * f < n { (k + 1) * f } else { n }
}

/// The `k`-th group of at most `f` consecutive identifiers.
pub open spec fn group(ids: Seq<IdView>, f: nat, k: nat) -> Seq<IdView> {
    ids.subrange((k * f) as int, group_end(ids.len(), f, k) as int)
}

/// The nodes of one tree level above `ids`: one per group of at most `f` identifiers.
pub open spec fn level_blocks(ids: Seq<IdView>, f: nat, is_leaf_level: bool) -> Seq<BlockView> {
    Seq::new(group_count(ids.len(), f), |k: int| node_block(group(ids, f, k as nat), is_leaf_level))
}

/// The identifiers of the nodes of one tree level above `ids`.
pub open spec fn level_ids(ids: Seq<IdView>, f: nat, is_leaf_level: bool) -> Seq<IdView> {
    level_blocks(ids, f, is_leaf_level).map_values(|b: BlockView| b.0)
}

/// Builds levels bottom-up until at most `f` identifiers remain: the root's children, the
/// number of levels built, and the blocks of all nodes, lowest level first.
pub open spec fn tree_levels(ids: Seq<IdView>, f: nat, is_leaf_level: bool) -> (Seq<IdView>, nat, Seq<BlockView>)
    decreases ids.len(),
{
    if f < 2 || ids.len() <= f {
        (ids, 0, Seq::empty())
    } else {
        proof {
            lemma_group_count(ids.len(), f);
        }
        let up = tree_levels(level_ids(ids, f, is_leaf_level), f, false);
        (up.0, up.1 + 1, level_blocks(ids, f, is_leaf_level) + up.2)
    }
}

/// Facts about the groups of `n > f >= 2` items: there are fewer groups than items, at least
/// one, and at most about half as many.
pub proof fn lemma_group_count(n: nat, f: nat)
    requires
        n > f >= 2,
    ensures
        group_count(n, f) < n,
        group_count(n, f) >= 1,
        2 * (group_count(n, f) - 1) <= n - 1,
{
    let q = n / f;
    let r = n % f;
    vstd::arithmetic::div_mod::lemma_fundamental_div_mod(n as int, f as int);
    assert(n == f * q + r);
    assert(q >= 1) by (nonlinear_arith)
        requires n == f * q + r, 0 <= r < f, n > f, q >= 0;
    assert(2 * q <= f * q) by (nonlinear_arith)
        requires f >= 2, q >= 0;
}

/// Facts about the groups of `n >= 1` items for a fanout of at least 2: at least one group,
/// and at most about half as many groups as items (one group when `n <= f`).
pub proof fn lemma_group_count_any(n: nat, f: nat)
    requires
        n >= 1,
        f >= 2,
    ensures
        group_count(n, f) >= 1,
        2 * (group_count(n, f) - 1) <= n - 1,
        n <= f ==> group_count(n, f) == 1,
{
    if n > f {
        lemma_group_count(n, f);
    } else if n == f {
        assert(n % f == 0 && n / f == 1) by (nonlinear_arith)
            requires n == f, f >= 2;
    } else {
        assert(n % f == n && n / f == 0) by (nonlinear_arith)
            requires n < f, n >= 1;
    }
}

/// The start of every group lies inside the items.
pub proof fn lemma_group_start(n: nat, f: nat, k: nat)
    requires
        f >= 1,
        k < group_count(n, f),
    ensures
        k * f < n,
{
    let q = n / f;
    let r = n % f;
    vstd::arithmetic::div_mod::lemma_fundamental_div_mod(n as int, f as int);
    if r == 0 {
        assert(k * f <= (q - 1) * f) by (nonlinear_arith)
            requires k <= q - 1, f >= 1;
        assert((q - 1) * f == q * f - f) by (nonlinear_arith);
    } else {
        assert(k * f <= q * f) by (nonlinear_arith)
            requires k <= q, f >= 1;
    }
}

/// The links of blocks, concatenated in order.
pub open spec fn concat_links(bs: Seq<BlockView>) -> Seq<IdView>
    decreases bs.len(),
{
    if bs.len() == 0 {
        Seq::empty()
    } else {
        concat_links(bs.drop_last()) + bs.last().2
    }
}

proof fn lemma_group_count_covers(n: nat, f: nat)
    requires
        f >= 1,
    ensures
        group_count(n, f) * f >= n,
{
    let q = n / f;
    let r = n % f;
    vstd::arithmetic::div_mod::lemma_fundamental_div_mod(n as int, f as int);
    if r == 0 {
        assert(q * f == n) by (nonlinear_arith)
            requires n == f * q + r, r == 0;
    } else {
        assert((q + 1) * f >= n) by (nonlinear_arith)
            requires n == f * q + r, r < f;
    }
}

proof fn lemma_level_prefix(ids: Seq<IdView>, f: nat, is_leaf_level: bool, k: nat)
    requires
        f >= 1,
        k <= group_count(ids.len(), f),
    ensures
        concat_links(level_blocks(ids, f, is_leaf_level).subrange(0, k as int)) == ids.subrange(
            0,
            if k * f < ids.len() { (k * f) as int } else { ids.len() as int },
        ),
    decreases k,
{
    let lv = level_blocks(ids, f, is_leaf_level);
    if k == 0 {
        assert(lv.subrange(0, 0) =~= Seq::<BlockView>::empty());
        assert(ids.subrange(0, 0) =~= Seq::<IdView>::empty());
    } else {
        let j = (k - 1) as nat;
        lemma_level_prefix(ids, f, is_leaf_level, j);
        lemma_group_start(ids.len(), f, j);
        assert(lv.subrange(0, k as int).drop_last() =~= lv.subrange(0, j as int));
        assert(lv.subrange(0, k as int).last() == lv[j as int]);
        assert(lv[j as int].2 == group(ids, f, j));
        assert(k * f == j * f + f) by (nonlinear_arith)
            requires k == j + 1;
        let end = group_end(ids.len(), f, j);
        assert(ids.subrange(0, (j * f) as int) + ids.subrange((j * f) as int, end as int) =~= ids.subrange(0, end as int));
    }
}

/// Each tree level covers the identifiers below it: the links of its nodes, in order, are
/// exactly those identifiers. With the nodes of each level identified by the level above,
/// reading a tree down from the root's children gives back the chunks in order.
pub proof fn law_level_covers_ids(ids: Seq<IdView>, f: nat, is_leaf_level: bool)
    requires
        f >= 1,
    ensures
        concat_links(level_blocks(ids, f, is_leaf_level)) == ids,
        level_ids(ids, f, is_leaf_level) == level_blocks(ids, f, is_leaf_level).map_values(|b: BlockView| b.0),
{
    let lv = level_blocks(ids, f, is_leaf_level);
    let gc = group_count(ids.len(), f);
    lemma_level_prefix(ids, f, is_leaf_level, gc);
    lemma_group_count_covers(ids.len(), f);
    assert(lv.subrange(0, gc as int) =~= lv);
    assert(ids.subrange(0, ids.len() as int) =~= ids);
}

/// Copies the identifiers in `[start, end)`.
fn copy_range(ids: &Vec<ContentId>, start: usize, end: usize) -> (r: Vec<ContentId>)
    requires
        start <= end <= ids@.len(),
    ensures
        ids_view(r@) == ids_view(ids@).subrange(start as int, end as int),
{
    let mut out: Vec<ContentId> = Vec::new();
    let mut i: usize = start;
    while i < end
        invariant
            start <= i <= end <= ids@.len(),
            ids_view(out@) == ids_view(ids@).subrange(start as int, i as int),
        decreases end - i,
    {
        let c = ids[i].copy();
        proof {
            assert(ids_view(out@.push(c)) =~= ids_view(out@).push(c@));
        }
        out.push(c);
        i = i + 1;
        assert(ids_view(out@) =~= ids_view(ids@).subrange(start as int, i as int));
    }
    out
}

/// Builds one tree level above `cur`, appending its node blocks to `blocks`; returns the
/// node identifiers.
fn build_level(cur: &Vec<ContentId>, f: usize, is_leaf_level: bool, blocks: &mut Vec<Block>) -> (next: Vec<ContentId>)
    requires
        f >= 2,
    ensures
        ids_view(next@) == level_ids(ids_view(cur@), f as nat, is_leaf_level),
        blocks_view(final(blocks)@) == blocks_view(old(blocks)@) + level_blocks(ids_view(cur@), f as nat, is_leaf_level),
{
    let ghost ids = ids_view(cur@);
    let ghost lv = level_blocks(ids, f as nat, is_leaf_level);
    let n = cur.len();
    let q = n / f;
    assert(q < usize::MAX) by (nonlinear_arith)
        requires f >= 2, q == n / f, n <= usize::MAX;
    let count = if n % f == 0 { q } else { q + 1 };
    assert(count == group_count(n as nat, f as nat));
    let mut next: Vec<ContentId> = Vec::new();
    let mut k: usize = 0;
    let mut start: usize = 0;
    while k < count
        invariant
            f >= 2,
            n == cur@.len(),
            ids == ids_view(cur@),
            lv == level_blocks(ids, f as nat, is_leaf_level),
            count == group_count(n as nat, f as nat),
            k <= count,
            k < count ==> start == k * f,
            ids_view(next@) == lv.subrange(0, k as int).map_values(|b: BlockView| b.0),
            blocks_view(blocks@) == blocks_view(old(blocks)@) + lv.subrange(0, k as int),
        decreases count - k,
    {
        proof { lemma_group_start(n as nat, f as nat, k as nat); }
        let end = if n - start > f { start + f } else { n };
        assert(end == group_end(n as nat, f as nat, k as nat)) by (nonlinear_arith)
            requires start == k * f, end == (if n - start > f { start + f } else { n as int });
        let children = copy_range(cur, start, end);
        let node = TreeNode::new(children, is_leaf_level);
        let block = match node.to_block() {
            Ok(b) => b,
            Err(_) => {
                proof { assert(false); }
                return next;
            },
        };
        let cid = block.cid().copy();
        proof {
            assert(block@ == lv[k as int]);
            assert(blocks_view(blocks@.push(block)) =~= blocks_view(blocks@).push(block@));
            assert(ids_view(next@.push(cid)) =~= ids_view(next@).push(cid@));
            assert(lv.subrange(0, k + 1) =~= lv.subrange(0, k as int).push(lv[k as int]));
            assert(lv.subrange(0, k + 1).map_values(|b: BlockView| b.0) =~= lv.subrange(0, k as int).map_values(|b: BlockView| b.0).push(lv[k as int].0));
        }
        blocks.push(block);
        next.push(cid);
        k = k + 1;
        if k < count {
            assert(start + f == k * f) by (nonlinear_arith)
                requires start == (k - 1) * f;
            proof { lemma_group_start(n as nat, f as nat, k as nat); }
            start = start + f;
        }
    }
    assert(lv.subrange(0, count as int) =~= lv);
    next
}

/// Configuration of tree building.
#[derive(Debug, Clone, Copy)]
pub struct TreeConfig {
    /// Maximum children per node.
    pub fanout: usize,
    /// Chunk count above which a tree is built.
    pub flat_threshold: usize,
}

impl Default for TreeConfig {
    fn default() -> (r: Self)
        ensures
            r.fanout == DEFAULT_TREE_FANOUT,
            r.flat_threshold == FLAT_CHUNK_THRESHOLD,
    {
        TreeConfig { fanout: DEFAULT_TREE_FANOUT, flat_threshold: FLAT_CHUNK_THRESHOLD }
    }
}

/// Builds Merkle trees over chunk identifiers.
#[derive(Debug)]
pub struct TreeBuilder {
    config: TreeConfig,
}

impl Default for TreeBuilder {
    fn default() -> (r: Self)
        ensures
            r.spec_config().fanout == DEFAULT_TREE_FANOUT,
            r.spec_config().flat_threshold == FLAT_CHUNK_THRESHOLD,
    {
        Self::new()
    }
}

/// The tree over chunk identifiers: one level of leaf nodes above the chunks, then levels
/// above that until at most `f` identifiers remain. The root's children, the depth (at least
/// one), and the node blocks, lowest level first.
pub open spec fn tree_of(chunks: Seq<IdView>, f: nat) -> (Seq<IdView>, nat, Seq<BlockView>) {
    let up = tree_levels(level_ids(chunks, f, true), f, false);
    (up.0, up.1 + 1, level_blocks(chunks, f, true) + up.2)
}

/// What `TreeBuilder::build` gives for chunk identifiers under a configuration: the chunks
/// themselves under a flat structure when there are at most `flat_threshold` of them; else the
/// root's children of the tree, the tree structure, and the node blocks to store.
pub open spec fn built_tree(chunks: Seq<IdView>, config: TreeConfig) -> (Seq<IdView>, ManifestStructure, Seq<BlockView>) {
    if chunks.len() <= config.flat_threshold {
        (chunks, ManifestStructure::Flat, Seq::empty())
    } else {
        let t = tree_of(chunks, config.fanout as nat);
        (t.0, ManifestStructure::Tree { depth: t.1 as u8, fanout: config.fanout as u16, chunk_count: chunks.len() as u64 }, t.2)
    }
}

impl TreeBuilder {
    /// The builder's configuration.
    pub closed spec fn spec_config(&self) -> TreeConfig {
        self.config
    }

    /// A builder with the default configuration.
    pub fn new() -> (r: Self)
        ensures
            r.spec_config().fanout == DEFAULT_TREE_FANOUT,
            r.spec_config().flat_threshold == FLAT_CHUNK_THRESHOLD,
    {
        TreeBuilder { config: TreeConfig::default() }
    }

    /// A builder with the given configuration.
    pub fn with_config(config: TreeConfig) -> (r: Self)
        ensures
            r.spec_config() == config,
    {
        TreeBuilder { config }
    }

    /// Whether this many chunks call for a tree.
    pub fn should_use_tree(&self, chunk_count: usize) -> (r: bool)
        ensures
            r == (chunk_count > self.spec_config().flat_threshold),
    {
        chunk_count > self.config.flat_threshold
    }

    /// Builds the tree over the chunk identifiers, bottom-up: a first level of leaf nodes groups
    /// the chunks into nodes of at most `fanout` children, and each further level groups the
    /// level below, until at most `fanout` remain; a tree has depth at least one. Small inputs
    /// stay flat.
    pub fn build(&self, chunks: Vec<ContentId>) -> (r: Result<(Vec<ContentId>, ManifestStructure, Vec<Block>), BlockStoreError>)
        requires
            chunks@.len() > self.spec_config().flat_threshold ==> self.spec_config().fanout >= 2,
        ensures
            r matches Ok(t) && (ids_view(t.0@), t.1, blocks_view(t.2@)) == built_tree(ids_view(chunks@), self.spec_config()),
    {
        let chunk_count = chunks.len();
        if !self.should_use_tree(chunk_count) {
            let none: Vec<Block> = Vec::new();
            assert(blocks_view(none@) =~= Seq::<BlockView>::empty());
            return Ok((chunks, ManifestStructure::Flat, none));
        }
        let f = self.config.fanout;
        let ghost total = tree_of(ids_view(chunks@), f as nat);
        let ghost up = tree_levels(level_ids(ids_view(chunks@), f as nat, true), f as nat, false);
        let mut blocks: Vec<Block> = Vec::new();
        proof {
            vstd::arithmetic::power2::lemma2_to64();
            vstd::arithmetic::power2::lemma_pow2_unfold(1);
            assert(vstd::arithmetic::power2::pow2(0) == 1) by {
                vstd::arithmetic::power2::lemma_pow2(0);
                vstd::arithmetic::power::lemma_pow0(2);
            }
            lemma_group_count_any(chunk_count as nat, f as nat);
            assert(blocks_view(blocks@) =~= Seq::<BlockView>::empty());
        }
        let mut current: Vec<ContentId> = build_level(&chunks, f, true, &mut blocks);
        let mut depth: u8 = 1;
        proof {
            assert(blocks_view(blocks@) =~= level_blocks(ids_view(chunks@), f as nat, true));
        }
        while current.len() > f
            invariant
                f >= 2,
                chunk_count >= 1,
                1 <= current@.len(),
                1 <= depth <= 64,
                (current@.len() - 1) * vstd::arithmetic::power2::pow2(depth as nat) <= chunk_count - 1,
                vstd::arithmetic::power2::pow2(64) == 0x1_0000_0000_0000_0000,
                total == (up.0, up.1 + 1, level_blocks(ids_view(chunks@), f as nat, true) + up.2),
                tree_levels(ids_view(current@), f as nat, false).0 == up.0,
                depth + tree_levels(ids_view(current@), f as nat, false).1 == up.1 + 1,
                blocks_view(blocks@) + tree_levels(ids_view(current@), f as nat, false).2 == total.2,
            decreases current@.len(),
        {
            let ghost cur = ids_view(current@);
            let ghost d = depth as nat;
            proof {
                lemma_group_count(cur.len(), f as nat);
                let p = vstd::arithmetic::power2::pow2(d);
                vstd::arithmetic::power2::lemma_pow2_pos(d);
                assert(p <= (cur.len() - 1) * p) by (nonlinear_arith)
                    requires cur.len() - 1 >= 1, p > 0;
                if d >= 64 {
                    if d > 64 {
                        vstd::arithmetic::power2::lemma_pow2_strictly_increases(64, d);
                    }
                    assert(false);
                }
            }
            let next = build_level(&current, f, false, &mut blocks);
            proof {
                let nl = level_ids(cur, f as nat, false);
                assert(nl.len() == group_count(cur.len(), f as nat));
                let p = vstd::arithmetic::power2::pow2(d);
                vstd::arithmetic::power2::lemma_pow2_unfold(d + 1);
                assert((nl.len() - 1) * (2 * p) <= (cur.len() - 1) * p) by (nonlinear_arith)
                    requires 2 * (nl.len() - 1) <= cur.len() - 1, p > 0, nl.len() >= 1;
                assert(tree_levels(cur, f as nat, false) == (tree_levels(nl, f as nat, false).0, tree_levels(nl, f as nat, false).1 + 1, level_blocks(cur, f as nat, false) + tree_levels(nl, f as nat, false).2));
                assert(blocks_view(blocks@) + tree_levels(nl, f as nat, false).2 =~= total.2);
            }
            current = next;
            depth = depth + 1;
        }
        let structure = ManifestStructure::Tree { depth, fanout: f as u16, chunk_count: chunk_count as u64 };
        proof {
            assert(blocks_view(blocks@) =~= total.2);
        }
        Ok((current, structure, blocks))
    }
}

// ---------------------------------------------------------------------------------------------
// DocumentManifestBuilder
// ---------------------------------------------------------------------------------------------

/// The value of `key` after setting the pairs of `s` in order, starting from `before`.
pub open spec fn last_value(s: Seq<(Seq<char>, Seq<char>)>, key: Seq<char>, before: Option<Seq<char>>) -> Option<Seq<char>>
    decreases s.len(),
{
    if s.len() == 0 {
        before
    } else if s.last().0 == key {
        Some(s.last().1)
    } else {
        last_value(s.drop_last(), key, before)
    }
}

/// The current time in Unix epoch seconds, by `std::time::SystemTime::now`; 0 when the clock
/// is before the epoch. Nothing is stated of the value: it is the machine's clock.
#[verifier::external_body]
fn now_unix_secs() -> (r: u64) {
    match std::time::SystemTime::now().duration_since(std::time::UNIX_EPOCH) {
        Ok(d) => d.as_secs(),
        Err(_) => 0,
    }
}

/// Builds `DocumentManifest` values field by field.
#[derive(Debug)]
pub struct DocumentManifestBuilder {
    name: Option<String>,
    content_type: Option<String>,
    total_size: Option<u64>,
    chunks: Vec<ContentId>,
    chunking_algorithm: ChunkingAlgorithm,
    publisher_did: Option<String>,
    created_at: Option<u64>,
    metadata: Metadata,
    tree_config: Option<TreeConfig>,
}

impl DocumentManifestBuilder {
    /// The name set so far.
    pub closed spec fn spec_name(&self) -> Option<String> {
        self.name
    }

    /// The content type set so far.
    pub closed spec fn spec_content_type(&self) -> Option<String> {
        self.content_type
    }

    /// The total size set so far.
    pub closed spec fn spec_total_size(&self) -> Option<u64> {
        self.total_size
    }

    /// The chunk identifiers set so far.
    pub closed spec fn spec_chunks(&self) -> Seq<IdView> {
        ids_view(self.chunks@)
    }

    /// The chunking algorithm.
    pub closed spec fn spec_algorithm(&self) -> ChunkingAlgorithm {
        self.chunking_algorithm
    }

    /// The publisher DID set so far.
    pub closed spec fn spec_publisher_did(&self) -> Option<String> {
        self.publisher_did
    }

    /// The creation time set so far.
    pub closed spec fn spec_created_at(&self) -> Option<u64> {
        self.created_at
    }

    /// The metadata set so far.
    pub closed spec fn spec_metadata(&self) -> Seq<(Seq<char>, Seq<char>)> {
        self.metadata@
    }

    /// The tree configuration set so far.
    pub closed spec fn spec_tree_config(&self) -> Option<TreeConfig> {
        self.tree_config
    }

    /// Nothing set yet: no name, content type, size, chunks, publisher, time, metadata or tree
    /// configuration, and the default (FastCDC) algorithm.
    pub open spec fn is_fresh(&self) -> bool {
        &&& self.spec_name() is None
        &&& self.spec_content_type() is None
        &&& self.spec_total_size() is None
        &&& self.spec_chunks().len() == 0
        &&& self.spec_algorithm() == ChunkingAlgorithm::FastCdc
        &&& self.spec_publisher_did() is None
        &&& self.spec_created_at() is None
        &&& self.spec_metadata().len() == 0
        &&& self.spec_tree_config() is None
    }

    /// Whether two builders agree on every field but the ones a setter changes; `which` names
    /// the changed field: 0 name, 1 content type, 2 size, 3 chunks, 4 algorithm, 5 publisher,
    /// 6 time, 7 metadata, 8 tree configuration.
    pub open spec fn same_except(&self, other: &Self, which: int) -> bool {
        &&& (which != 0 ==> self.spec_name() == other.spec_name())
        &&& (which != 1 ==> self.spec_content_type() == other.spec_content_type())
        &&& (which != 2 ==> self.spec_total_size() == other.spec_total_size())
        &&& (which != 3 ==> self.spec_chunks() == other.spec_chunks())
        &&& (which != 4 ==> self.spec_algorithm() == other.spec_algorithm())
        &&& (which != 5 ==> self.spec_publisher_did() == other.spec_publisher_did())
        &&& (which != 6 ==> self.spec_created_at() == other.spec_created_at())
        &&& (which != 7 ==> self.spec_metadata() == other.spec_metadata())
        &&& (which != 8 ==> self.spec_tree_config() == other.spec_tree_config())
    }

    /// A builder with default values.
    pub fn new() -> (r: Self)
        ensures
            r.is_fresh(),
    {
        let b = DocumentManifestBuilder {
            name: None,
            content_type: None,
            total_size: None,
            chunks: Vec::new(),
            chunking_algorithm: ChunkingAlgorithm::FastCdc,
            publisher_did: None,
            created_at: None,
            metadata: Metadata::new(),
            tree_config: None,
        };
        assert(ids_view(b.chunks@) =~= Seq::<IdView>::empty());
        b
    }

    /// Sets the document name.
    pub fn name(self, name: &str) -> (r: Self)
        ensures
            r.spec_name() matches Some(n) && n@ == name@,
            r.same_except(&self, 0),
    {
        let mut b = self;
        b.name = Some(name.to_owned());
        b
    }

    /// Sets the content (MIME) type.
    pub fn content_type(self, content_type: &str) -> (r: Self)
        ensures
            r.spec_content_type() matches Some(n) && n@ == content_type@,
            r.same_except(&self, 1),
    {
        let mut b = self;
        b.content_type = Some(content_type.to_owned());
        b
    }

    /// Sets the total size in bytes.
    pub fn total_size(self, size: u64) -> (r: Self)
        ensures
            r.spec_total_size() == Some(size),
            r.same_except(&self, 2),
    {
        let mut b = self;
        b.total_size = Some(size);
        b
    }

    /// Sets the chunk identifiers.
    pub fn chunks(self, chunks: Vec<ContentId>) -> (r: Self)
        ensures
            r.spec_chunks() == ids_view(chunks@),
            r.same_except(&self, 3),
    {
        let mut b = self;
        b.chunks = chunks;
        b
    }

    /// Adds one chunk identifier at the end.
    pub fn add_chunk(self, chunk: ContentId) -> (r: Self)
        ensures
            r.spec_chunks() == self.spec_chunks().push(chunk@),
            r.same_except(&self, 3),
    {
        let mut b = self;
        proof {
            assert(ids_view(b.chunks@.push(chunk)) =~= ids_view(b.chunks@).push(chunk@));
        }
        b.chunks.push(chunk);
        b
    }

    /// Sets the chunking algorithm.
    pub fn chunking_algorithm(self, algorithm: ChunkingAlgorithm) -> (r: Self)
        ensures
            r.spec_algorithm() == algorithm,
            r.same_except(&self, 4),
    {
        let mut b = self;
        b.chunking_algorithm = algorithm;
        b
    }

    /// Sets the publisher DID.
    pub fn publisher_did(self, did: &str) -> (r: Self)
        ensures
            r.spec_publisher_did() matches Some(n) && n@ == did@,
            r.same_except(&self, 5),
    {
        let mut b = self;
        b.publisher_did = Some(did.to_owned());
        b
    }

    /// Sets the creation time (Unix epoch seconds).
    pub fn created_at(self, timestamp: u64) -> (r: Self)
        ensures
            r.spec_created_at() == Some(timestamp),
            r.same_except(&self, 6),
    {
        let mut b = self;
        b.created_at = Some(timestamp);
        b
    }

    /// Adds or replaces one metadata entry.
    pub fn metadata(self, key: &str, value: &str) -> (r: Self)
        ensures
            value_of(r.spec_metadata(), key@) == Some(value@),
            forall|k: Seq<char>| k != key@ ==> #[trigger] value_of(r.spec_metadata(), k) == value_of(self.spec_metadata(), k),
            (forall|j: int|
                0 <= j < self.spec_metadata().len() ==> crate::dag_cbor::bytes_before(
                    #[trigger] crate::dag_cbor::cbor_text(self.spec_metadata()[j].0),
                    crate::dag_cbor::cbor_text(key@),
                )) ==> r.spec_metadata() == self.spec_metadata().push((key@, value@)),
            r.same_except(&self, 7),
    {
        let mut b = self;
        b.metadata.insert(key.to_owned(), value.to_owned());
        b
    }

    /// Adds or replaces several metadata entries, in order (a later entry for the same key
    /// wins).
    pub fn metadata_entries(self, entries: Vec<(String, String)>) -> (r: Self)
        ensures
            forall|k: Seq<char>| #[trigger] value_of(r.spec_metadata(), k) == last_value(pairs_view(entries@), k, value_of(self.spec_metadata(), k)),
            r.same_except(&self, 7),
    {
        let mut b = self;
        let ghost all = pairs_view(entries@);
        let ghost start = b.metadata@;
        let mut i: usize = 0;
        while i < entries.len()
            invariant
                i <= entries@.len(),
                all == pairs_view(entries@),
                b.same_except(&self, 7),
                forall|k: Seq<char>| #[trigger] value_of(b.metadata@, k) == last_value(all.subrange(0, i as int), k, value_of(start, k)),
            decreases entries@.len() - i,
        {
            let key = entries[i].0.clone();
            let value = entries[i].1.clone();
            b.metadata.insert(key, value);
            proof {
                assert(all.subrange(0, i + 1).drop_last() =~= all.subrange(0, i as int));
                assert(all.subrange(0, i + 1).last() == all[i as int]);
            }
            i = i + 1;
        }
        assert(all.subrange(0, all.len() as int) =~= all);
        b
    }

    /// Whether `m` is the manifest assembled from this builder's fields (with the given
    /// publisher and size), apart from the structure and children.
    pub open spec fn assembled(&self, m: DocumentManifest) -> bool {
        &&& m.version == MANIFEST_VERSION
        &&& m.name == self.spec_name()
        &&& m.content_type == self.spec_content_type()
        &&& self.spec_total_size() == Some(m.total_size)
        &&& m.chunking_algorithm == self.spec_algorithm()
        &&& self.spec_publisher_did() == Some(m.publisher_did)
        &&& (self.spec_created_at() matches Some(t) ==> m.created_at == t)
        &&& m.metadata@ == self.spec_metadata()
    }

    /// The tree configuration in force: the one set, or the default.
    pub open spec fn effective_tree_config(&self) -> TreeConfig {
        match self.spec_tree_config() {
            Some(c) => c,
            None => TreeConfig { fanout: DEFAULT_TREE_FANOUT, flat_threshold: FLAT_CHUNK_THRESHOLD },
        }
    }

    /// Builds a flat manifest: the chunk identifiers are the manifest's children.
    ///
    /// Fails when the publisher DID or the total size is missing (the publisher is checked
    /// first). Without a creation time, the current time is used.
    pub fn build_flat(self) -> (r: Result<DocumentManifest, BlockStoreError>)
        ensures
            self.spec_publisher_did() is None ==> (r matches Err(BlockStoreError::Config(msg)) && msg@ == "publisher_did is required"@),
            self.spec_publisher_did() is Some && self.spec_total_size() is None ==> (r matches Err(BlockStoreError::Config(msg)) && msg@ == "total_size is required"@),
            self.spec_publisher_did() is Some && self.spec_total_size() is Some ==> (r matches Ok(m) && self.assembled(m)
                && m.structure == ManifestStructure::Flat && ids_view(m.children@) == self.spec_chunks()),
    {
        let now = match self.created_at {
            Some(t) => t,
            None => now_unix_secs(),
        };
        self.build_flat_at(now)
    }

    /// Builds a flat manifest at time `now` (Unix seconds), as `build_flat` does: without a
    /// creation time, the manifest is stamped `now`.
    pub fn build_flat_at(self, now: u64) -> (r: Result<DocumentManifest, BlockStoreError>)
        ensures
            self.spec_publisher_did() is None ==> (r matches Err(BlockStoreError::Config(msg)) && msg@ == "publisher_did is required"@),
            self.spec_publisher_did() is Some && self.spec_total_size() is None ==> (r matches Err(BlockStoreError::Config(msg)) && msg@ == "total_size is required"@),
            self.spec_publisher_did() is Some && self.spec_total_size() is Some ==> (r matches Ok(m) && self.assembled(m)
                && m.structure == ManifestStructure::Flat && ids_view(m.children@) == self.spec_chunks()
                && m.created_at == match self.spec_created_at() { Some(t) => t, None => now }),
    {
        let publisher_did = match self.publisher_did {
            Some(p) => p,
            None => return Err(BlockStoreError::Config("publisher_did is required".to_owned())),
        };
        let total_size = match self.total_size {
            Some(t) => t,
            None => return Err(BlockStoreError::Config("total_size is required".to_owned())),
        };
        let created_at = match self.created_at {
            Some(t) => t,
            None => now,
        };
        Ok(DocumentManifest {
            version: MANIFEST_VERSION,
            name: self.name,
            content_type: self.content_type,
            total_size,
            structure: ManifestStructure::Flat,
            children: self.chunks,
            chunking_algorithm: self.chunking_algorithm,
            publisher_did,
            created_at,
            metadata: self.metadata,
        })
    }

    /// Builds a manifest, with a Merkle tree over the chunks when there are more than the
    /// tree configuration's threshold; returns the manifest and the tree node blocks, which the
    /// caller stores.
    ///
    /// Fails as `build_flat` does when the publisher DID or the total size is missing.
    pub fn build_tree(self) -> (r: Result<(DocumentManifest, Vec<Block>), BlockStoreError>)
        requires
            self.spec_chunks().len() > self.effective_tree_config().flat_threshold ==> self.effective_tree_config().fanout >= 2,
        ensures
            self.spec_publisher_did() is None ==> (r matches Err(BlockStoreError::Config(msg)) && msg@ == "publisher_did is required"@),
            self.spec_publisher_did() is Some && self.spec_total_size() is None ==> (r matches Err(BlockStoreError::Config(msg)) && msg@ == "total_size is required"@),
            self.spec_publisher_did() is Some && self.spec_total_size() is Some ==> (r matches Ok(out) && self.assembled(out.0)
                && (ids_view(out.0.children@), out.0.structure, blocks_view(out.1@)) == built_tree(self.spec_chunks(), self.effective_tree_config())),
    {
        let now = match self.created_at {
            Some(t) => t,
            None => now_unix_secs(),
        };
        self.build_tree_at(now)
    }

    /// Builds a manifest at time `now` (Unix seconds), as `build_tree` does: without a creation
    /// time, the manifest is stamped `now`.
    pub fn build_tree_at(self, now: u64) -> (r: Result<(DocumentManifest, Vec<Block>), BlockStoreError>)
        requires
            self.spec_chunks().len() > self.effective_tree_config().flat_threshold ==> self.effective_tree_config().fanout >= 2,
        ensures
            self.spec_publisher_did() is None ==> (r matches Err(BlockStoreError::Config(msg)) && msg@ == "publisher_did is required"@),
            self.spec_publisher_did() is Some && self.spec_total_size() is None ==> (r matches Err(BlockStoreError::Config(msg)) && msg@ == "total_size is required"@),
            self.spec_publisher_did() is Some && self.spec_total_size() is Some ==> (r matches Ok(out) && self.assembled(out.0)
                && (ids_view(out.0.children@), out.0.structure, blocks_view(out.1@)) == built_tree(self.spec_chunks(), self.effective_tree_config())
                && out.0.created_at == match self.spec_created_at() { Some(t) => t, None => now }),
    {
        let publisher_did = match self.publisher_did {
            Some(p) => p,
            None => return Err(BlockStoreError::Config("publisher_did is required".to_owned())),
        };
        let total_size = match self.total_size {
            Some(t) => t,
            None => return Err(BlockStoreError::Config("total_size is required".to_owned())),
        };
        let config = match self.tree_config {
            Some(c) => c,
            None => TreeConfig::default(),
        };
        let builder = TreeBuilder::with_config(config);
        let (children, structure, blocks) = match builder.build(self.chunks) {
            Ok(t) => t,
            Err(e) => return Err(e),
        };
        let created_at = match self.created_at {
            Some(t) => t,
            None => now,
        };
        Ok((DocumentManifest {
            version: MANIFEST_VERSION,
            name: self.name,
            content_type: self.content_type,
            total_size,
            structure,
            children,
            chunking_algorithm: self.chunking_algorithm,
            publisher_did,
            created_at,
            metadata: self.metadata,
        }, blocks))
    }

    /// Sets the tree configuration.
    pub fn tree_config(self, config: TreeConfig) -> (r: Self)
        ensures
            r.spec_tree_config() == Some(config),
            r.same_except(&self, 8),
    {
        let mut b = self;
        b.tree_config = Some(config);
        b
    }
}

} // verus!
