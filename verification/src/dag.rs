//! Publishing content as a DAG (chunk blocks, tree nodes and a manifest) and reading byte
//! ranges back out of it.

use vstd::prelude::*;
use vstd::string::*;

use crate::block::{ids_view, Block};
use crate::chunking::spans::span_end;
use crate::chunking::types::{is_tiling, law_tiling_reconstructs, concat_chunks, ChunkData, StreamingChunkError};
use crate::chunking::{Chunker, ChunkingAlgorithm, SelectedChunker};
use crate::content_id::{id_of, ContentId, DAG_CBOR_CODEC, RAW_CODEC};
use crate::error::{block_store_message, id_text, io_error_text, provider_message, BlockStoreError, ContentProviderError};
use crate::text::{decimal, decimal_string};
use crate::manifest::{
    blocks_view, built_tree, group_count, group_end, lemma_group_start, manifest_cbor, BlockView, DocumentManifest,
    DocumentManifestBuilder, IdView, ManifestStructure, TreeConfig, tree_of, DEFAULT_TREE_FANOUT, FLAT_CHUNK_THRESHOLD,
};
use crate::metadata::{pairs_view, value_of, Metadata};
use crate::tree_walk::{law_built_tree_walk, law_flat_walk, remaining, tree_consistent, FrameView, WalkView};

verus! {

// ---------------------------------------------------------------------------------------------
// Errors
// ---------------------------------------------------------------------------------------------

/// Errors of DAG operations.
#[derive(Debug)]
pub enum DagError {
    /// Block store operation failed.
    BlockStore(BlockStoreError),
    /// Chunking failed.
    Chunking(StreamingChunkError),
    /// IO error while streaming.
    Io(std::io::Error),
    /// Manifest block not found.
    ManifestNotFound(ContentId),
    /// Chunk block not found.
    ChunkNotFound(ContentId),
    /// Tree node not found during traversal.
    TreeNodeNotFound(ContentId),
    /// Invalid manifest data.
    InvalidManifest(String),
    /// Range start at or beyond the content size.
    RangeOutOfBounds { start: u64, end: u64, size: u64 },
    /// Content provider error.
    Provider(ContentProviderError),
}

impl From<BlockStoreError> for DagError {
    fn from(e: BlockStoreError) -> (r: Self) {
        DagError::BlockStore(e)
    }
}

impl vstd::std_specs::convert::FromSpecImpl<BlockStoreError> for DagError {
    open spec fn obeys_from_spec() -> bool {
        true
    }

    open spec fn from_spec(v: BlockStoreError) -> Self {
        DagError::BlockStore(v)
    }
}

impl From<StreamingChunkError> for DagError {
    fn from(e: StreamingChunkError) -> (r: Self) {
        DagError::Chunking(e)
    }
}

impl vstd::std_specs::convert::FromSpecImpl<StreamingChunkError> for DagError {
    open spec fn obeys_from_spec() -> bool {
        true
    }

    open spec fn from_spec(v: StreamingChunkError) -> Self {
        DagError::Chunking(v)
    }
}

impl From<std::io::Error> for DagError {
    fn from(e: std::io::Error) -> (r: Self) {
        DagError::Io(e)
    }
}

impl vstd::std_specs::convert::FromSpecImpl<std::io::Error> for DagError {
    open spec fn obeys_from_spec() -> bool {
        true
    }

    open spec fn from_spec(v: std::io::Error) -> Self {
        DagError::Io(v)
    }
}

impl From<ContentProviderError> for DagError {
    fn from(e: ContentProviderError) -> (r: Self) {
        DagError::Provider(e)
    }
}

impl vstd::std_specs::convert::FromSpecImpl<ContentProviderError> for DagError {
    open spec fn obeys_from_spec() -> bool {
        true
    }

    open spec fn from_spec(v: ContentProviderError) -> Self {
        DagError::Provider(v)
    }
}

/// The message of a DAG error; for an error carrying an I/O error, the part before the I/O
/// error's own text.
pub open spec fn dag_message(e: DagError) -> Seq<char> {
    match e {
        DagError::BlockStore(b) => "Block store error: "@ + block_store_message(b),
        DagError::Chunking(_) => "Chunking error: IO error during chunking: "@,
        DagError::Io(_) => "IO error: "@,
        DagError::ManifestNotFound(c) => "Manifest not found: "@ + id_text(c),
        DagError::ChunkNotFound(c) => "Chunk not found: "@ + id_text(c),
        DagError::TreeNodeNotFound(c) => "Tree node not found: "@ + id_text(c),
        DagError::InvalidManifest(s) => "Invalid manifest: "@ + s@,
        DagError::RangeOutOfBounds { start, end, size } => "Range "@ + decimal(start as nat) + ".."@ + decimal(end as nat)
            + " out of bounds for size "@ + decimal(size as nat),
        DagError::Provider(p) => "Content provider error: "@ + provider_message(p),
    }
}

/// Whether a DAG error carries an I/O error, whose text ends its message.
pub open spec fn dag_carries_io(e: DagError) -> bool {
    e is Io || e is Chunking
}

impl DagError {
    /// The error's message: `dag_message`, followed by the I/O error's text where the error
    /// carries one.
    pub fn message(&self) -> (r: String)
        ensures
            !dag_carries_io(*self) ==> r@ == dag_message(*self),
            dag_carries_io(*self) ==> r@.len() >= dag_message(*self).len() && r@.subrange(0, dag_message(*self).len() as int)
                == dag_message(*self),
    {
        let r = match self {
            DagError::BlockStore(b) => String::from_str("Block store error: ").concat(b.message().as_str()),
            DagError::Chunking(StreamingChunkError::Io(e)) => String::from_str("Chunking error: IO error during chunking: ").concat(
                io_error_text(e).as_str(),
            ),
            DagError::Io(e) => String::from_str("IO error: ").concat(io_error_text(e).as_str()),
            DagError::ManifestNotFound(c) => String::from_str("Manifest not found: ").concat(c.to_cid_string().as_str()),
            DagError::ChunkNotFound(c) => String::from_str("Chunk not found: ").concat(c.to_cid_string().as_str()),
            DagError::TreeNodeNotFound(c) => String::from_str("Tree node not found: ").concat(c.to_cid_string().as_str()),
            DagError::InvalidManifest(s) => String::from_str("Invalid manifest: ").concat(s.as_str()),
            DagError::RangeOutOfBounds { start, end, size } => String::from_str("Range ").concat(decimal_string(*start).as_str()).concat(
                "..",
            ).concat(decimal_string(*end).as_str()).concat(" out of bounds for size ").concat(decimal_string(*size).as_str()),
            DagError::Provider(p) => String::from_str("Content provider error: ").concat(p.message().as_str()),
        };
        proof {
            if !dag_carries_io(*self) {
                assert(r@ =~= dag_message(*self));
            } else {
                assert(r@.subrange(0, dag_message(*self).len() as int) =~= dag_message(*self));
            }
        }
        r
    }
}

// ---------------------------------------------------------------------------------------------
// DagMetadata, DagBuildResult
// ---------------------------------------------------------------------------------------------

/// Metadata of content to publish: the publisher DID (required), an optional name and content
/// type, and extra key-value entries.
#[derive(Debug)]
pub struct DagMetadata {
    /// Original file name.
    pub name: Option<String>,
    /// MIME content type.
    pub content_type: Option<String>,
    /// Publisher's DID.
    pub publisher_did: String,
    /// Additional key-value metadata.
    pub metadata: Metadata,
}

impl DagMetadata {
    /// Metadata with the given publisher DID and nothing else.
    pub fn new(publisher_did: &str) -> (r: Self)
        ensures
            r.publisher_did@ == publisher_did@,
            r.name is None,
            r.content_type is None,
            r.metadata@.len() == 0,
    {
        DagMetadata { name: None, content_type: None, publisher_did: publisher_did.to_owned(), metadata: Metadata::new() }
    }

    /// Sets the document name.
    pub fn name(self, name: &str) -> (r: Self)
        ensures
            r.name matches Some(n) && n@ == name@,
            r.content_type == self.content_type,
            r.publisher_did == self.publisher_did,
            r.metadata@ == self.metadata@,
    {
        let mut m = self;
        m.name = Some(name.to_owned());
        m
    }

    /// Sets the content (MIME) type.
    pub fn content_type(self, content_type: &str) -> (r: Self)
        ensures
            r.content_type matches Some(n) && n@ == content_type@,
            r.name == self.name,
            r.publisher_did == self.publisher_did,
            r.metadata@ == self.metadata@,
    {
        let mut m = self;
        m.content_type = Some(content_type.to_owned());
        m
    }

    /// Adds or replaces a metadata entry.
    pub fn with_metadata(self, key: &str, value: &str) -> (r: Self)
        ensures
            value_of(r.metadata@, key@) == Some(value@),
            forall|k: Seq<char>| k != key@ ==> #[trigger] value_of(r.metadata@, k) == value_of(self.metadata@, k),
            r.name == self.name,
            r.content_type == self.content_type,
            r.publisher_did == self.publisher_did,
    {
        let mut m = self;
        m.metadata.insert(key.to_owned(), value.to_owned());
        m
    }

    /// Adds or replaces several metadata entries, in order (a later entry for the same key
    /// wins).
    pub fn with_metadata_entries(self, entries: Vec<(String, String)>) -> (r: Self)
        ensures
            forall|k: Seq<char>| #[trigger] value_of(r.metadata@, k) == crate::manifest::last_value(pairs_view(entries@), k, value_of(self.metadata@, k)),
            r.name == self.name,
            r.content_type == self.content_type,
            r.publisher_did == self.publisher_did,
    {
        let mut m = self;
        let ghost all = pairs_view(entries@);
        let ghost start = m.metadata@;
        let mut i: usize = 0;
        while i < entries.len()
            invariant
                i <= entries@.len(),
                all == pairs_view(entries@),
                m.name == self.name,
                m.content_type == self.content_type,
                m.publisher_did == self.publisher_did,
                forall|k: Seq<char>| #[trigger] value_of(m.metadata@, k) == crate::manifest::last_value(all.subrange(0, i as int), k, value_of(start, k)),
            decreases entries@.len() - i,
        {
            let key = entries[i].0.clone();
            let value = entries[i].1.clone();
            m.metadata.insert(key, value);
            proof {
                assert(all.subrange(0, i + 1).drop_last() =~= all.subrange(0, i as int));
                assert(all.subrange(0, i + 1).last() == all[i as int]);
            }
            i = i + 1;
        }
        assert(all.subrange(0, all.len() as int) =~= all);
        m
    }
}

/// Result of publishing content as a DAG.
#[derive(Debug)]
pub struct DagBuildResult {
    /// Root identifier: the identifier of the manifest block (the document's identity).
    pub root_cid: ContentId,
    /// The manifest.
    pub manifest: DocumentManifest,
    /// Number of chunk blocks.
    pub chunks_stored: usize,
    /// Total bytes of the content.
    pub total_bytes: u64,
}

// ---------------------------------------------------------------------------------------------
// Publishing
// ---------------------------------------------------------------------------------------------

/// The blocks to store when publishing content, and the result to report once stored.
#[derive(Debug)]
pub struct DagPlan {
    /// One RAW block per chunk, in content order.
    pub chunk_blocks: Vec<Block>,
    /// The tree node blocks of a large manifest (none for a flat one).
    pub tree_blocks: Vec<Block>,
    /// The manifest block.
    pub manifest_block: Block,
    /// The publishing result.
    pub result: DagBuildResult,
}

/// The data of blocks, concatenated in order.
pub open spec fn blocks_data(bs: Seq<BlockView>) -> Seq<u8>
    decreases bs.len(),
{
    if bs.len() == 0 {
        Seq::empty()
    } else {
        blocks_data(bs.drop_last()) + bs.last().1
    }
}

/// Every block is the RAW block of its data, without links.
pub open spec fn raw_blocks(bs: Seq<BlockView>) -> bool {
    forall|i: int| 0 <= i < bs.len() ==> #[trigger] bs[i].0 == id_of(RAW_CODEC, bs[i].1) && bs[i].2.len() == 0
}

/// Two optional texts are both absent, or both present with the same characters.
pub open spec fn same_text(a: Option<String>, b: Option<String>) -> bool {
    match (a, b) {
        (None, None) => true,
        (Some(x), Some(y)) => x@ == y@,
        _ => false,
    }
}

/// The algorithm of a selected chunker.
pub open spec fn chunker_algorithm(c: SelectedChunker) -> ChunkingAlgorithm {
    match c {
        SelectedChunker::Fixed(_) => ChunkingAlgorithm::Fixed,
        SelectedChunker::FastCdc(_) => ChunkingAlgorithm::FastCdc,
        SelectedChunker::Rabin(_) => ChunkingAlgorithm::Rabin,
    }
}

impl SelectedChunker {
    /// The algorithm of this chunker.
    pub fn algorithm(&self) -> (r: ChunkingAlgorithm)
        ensures
            r == chunker_algorithm(*self),
    {
        match self {
            SelectedChunker::Fixed(_) => ChunkingAlgorithm::Fixed,
            SelectedChunker::FastCdc(_) => ChunkingAlgorithm::FastCdc,
            SelectedChunker::Rabin(_) => ChunkingAlgorithm::Rabin,
        }
    }
}

/// What publishing `data` with a chunker, metadata and creation time plans: one RAW block per
/// chunk the chunker cuts, in order (together they hold the data), the manifest built over
/// their identifiers from the metadata, its tree blocks and its block, and the result.
pub open spec fn planned(p: DagPlan, chunker: SelectedChunker, data: Seq<u8>, metadata: DagMetadata, created_at: u64) -> bool {
    let chunks = blocks_view(p.chunk_blocks@);
    let spans = chunker.chunk_spans(data);
    let m = p.result.manifest;
    let tree = built_tree(chunks.map_values(|b: BlockView| b.0), TreeConfig { fanout: DEFAULT_TREE_FANOUT, flat_threshold: FLAT_CHUNK_THRESHOLD });
    &&& chunks.len() == spans.len()
    &&& (forall|k: int| 0 <= k < chunks.len() ==> #[trigger] chunks[k].1 == data.subrange(spans[k].0, span_end(spans[k])))
    &&& blocks_data(chunks) == data
    &&& raw_blocks(chunks)
    &&& (ids_view(m.children@), m.structure, blocks_view(p.tree_blocks@)) == tree
    &&& m.version == crate::manifest::MANIFEST_VERSION
    &&& same_text(m.name, metadata.name)
    &&& same_text(m.content_type, metadata.content_type)
    &&& m.publisher_did@ == metadata.publisher_did@
    &&& m.total_size == data.len()
    &&& m.chunking_algorithm == chunker_algorithm(chunker)
    &&& m.metadata@ == metadata.metadata@
    &&& m.created_at == created_at
    &&& p.manifest_block@ == (id_of(DAG_CBOR_CODEC, manifest_cbor(m)), manifest_cbor(m), ids_view(m.children@))
    &&& p.result.root_cid@ == p.manifest_block@.0
    &&& p.result.chunks_stored == chunks.len()
    &&& p.result.total_bytes == data.len()
}

/// Plans the publication of content: chunks it with the chunker, makes a RAW block of each
/// chunk, and builds the manifest over the chunk identifiers (with a tree of the default shape
/// when there are many chunks) from the metadata, stamped with the creation time `created_at`
/// (Unix seconds; the caller reads the clock), so that the plan depends on its inputs alone.
/// The caller stores the chunk blocks, the tree blocks and the manifest block, in that order.
#[verifier::rlimit(40)]
#[verifier::spinoff_prover]
pub fn plan_dag(chunker: &SelectedChunker, data: &[u8], metadata: DagMetadata, created_at: u64) -> (r: Result<DagPlan, DagError>)
    requires
        chunker.accepts(data@),
    ensures
        r matches Ok(p) && planned(p, *chunker, data@, metadata, created_at),
{
    let chunks = chunker.chunk(data);
    proof { law_tiling_reconstructs(chunks@, data@); }
    let (chunk_blocks, chunk_ids) = make_chunk_blocks(&chunks);
    let total_size = data.len() as u64;
    let algorithm = chunker.algorithm();
    let builder = builder_for(&metadata, chunk_ids, total_size, algorithm, created_at);
    let (manifest, tree_blocks) = match builder.build_tree() {
        Ok(t) => t,
        Err(e) => return Err(DagError::BlockStore(e)),
    };
    let manifest_block = match manifest.to_block() {
        Ok(b) => b,
        Err(e) => return Err(DagError::BlockStore(e)),
    };
    let root_cid = manifest_block.cid().copy();
    let chunks_stored = chunk_blocks.len();
    proof {
        let bv = blocks_view(chunk_blocks@);
        let spans = chunker.chunk_spans(data@);
        assert forall|k: int| 0 <= k < bv.len() implies #[trigger] bv[k].1 == data@.subrange(spans[k].0, span_end(spans[k])) by {
            assert(bv[k].1 == chunks@[k].data@);
            assert(chunks@[k].offset == spans[k].0);
        }
    }
    let p = DagPlan {
        chunk_blocks,
        tree_blocks,
        manifest_block,
        result: DagBuildResult { root_cid, manifest, chunks_stored, total_bytes: total_size },
    };
    assert(planned(p, *chunker, data@, metadata, created_at));
    Ok(p)
}

/// One RAW block per chunk, and the blocks' identifiers.
fn make_chunk_blocks(chunks: &Vec<ChunkData>) -> (r: (Vec<Block>, Vec<ContentId>))
    ensures
        blocks_data(blocks_view(r.0@)) == concat_chunks(chunks@),
        raw_blocks(blocks_view(r.0@)),
        ids_view(r.1@) == blocks_view(r.0@).map_values(|b: BlockView| b.0),
        blocks_view(r.0@).len() == chunks@.len(),
        forall|k: int| 0 <= k < chunks@.len() ==> #[trigger] blocks_view(r.0@)[k].1 == chunks@[k].data@,
{
    let mut chunk_blocks: Vec<Block> = Vec::new();
    let mut chunk_ids: Vec<ContentId> = Vec::new();
    let mut i: usize = 0;
    let n = chunks.len();
    while i < n
        invariant
            n == chunks@.len(),
            i <= n,
            blocks_data(blocks_view(chunk_blocks@)) == concat_chunks(chunks@.subrange(0, i as int)),
            raw_blocks(blocks_view(chunk_blocks@)),
            ids_view(chunk_ids@) == blocks_view(chunk_blocks@).map_values(|b: BlockView| b.0),
            blocks_view(chunk_blocks@).len() == i,
            forall|k: int| 0 <= k < i ==> #[trigger] blocks_view(chunk_blocks@)[k].1 == chunks@[k].data@,
        decreases n - i,
    {
        let bytes = crate::content_id::copy_bytes(&chunks[i].data);
        let block = Block::new(bytes);
        let cid = block.cid().copy();
        proof {
            let bv = blocks_view(chunk_blocks@);
            assert(blocks_view(chunk_blocks@.push(block)) =~= bv.push(block@));
            assert(bv.push(block@).drop_last() =~= bv);
            assert(chunks@.subrange(0, i + 1).drop_last() =~= chunks@.subrange(0, i as int));
            assert(ids_view(chunk_ids@.push(cid)) =~= ids_view(chunk_ids@).push(cid@));
            assert(bv.push(block@).map_values(|b: BlockView| b.0) =~= bv.map_values(|b: BlockView| b.0).push(block@.0));
        }
        chunk_blocks.push(block);
        chunk_ids.push(cid);
        i = i + 1;
    }
    assert(chunks@.subrange(0, n as int) =~= chunks@);
    (chunk_blocks, chunk_ids)
}

/// A manifest builder set up from publishing metadata.
fn builder_for(
    metadata: &DagMetadata,
    chunk_ids: Vec<ContentId>,
    total_size: u64,
    algorithm: ChunkingAlgorithm,
    created_at: u64,
) -> (r: DocumentManifestBuilder)
    ensures
        r.spec_created_at() == Some(created_at),
        r.spec_metadata() == metadata.metadata@,
        r.spec_publisher_did() matches Some(p) && p@ == metadata.publisher_did@,
        r.spec_total_size() == Some(total_size),
        r.spec_algorithm() == algorithm,
        same_text(r.spec_name(), metadata.name),
        same_text(r.spec_content_type(), metadata.content_type),
        r.spec_chunks() == ids_view(chunk_ids@),
        r.spec_tree_config() is None,
        forall|k: Seq<char>| #[trigger] value_of(r.spec_metadata(), k) == value_of(metadata.metadata@, k),
{
    let mut builder = DocumentManifest::builder().publisher_did(metadata.publisher_did.as_str()).chunks(chunk_ids).total_size(
        total_size,
    ).chunking_algorithm(algorithm).created_at(created_at);
    match &metadata.name {
        Some(name) => {
            builder = builder.name(name.as_str());
        },
        None => {},
    }
    match &metadata.content_type {
        Some(ct) => {
            builder = builder.content_type(ct.as_str());
        },
        None => {},
    }
    let entries = metadata.metadata.entries();
    let mut j: usize = 0;
    let ghost meta = metadata.metadata@;
    let ghost ids = ids_view(chunk_ids@);
    assert(builder.spec_metadata() =~= meta.subrange(0, 0));
    while j < entries.len()
        invariant
            j <= entries@.len(),
            pairs_view(entries@) == meta,
            crate::metadata::keys_ordered(meta),
            builder.spec_publisher_did() matches Some(p) && p@ == metadata.publisher_did@,
            builder.spec_total_size() == Some(total_size),
            builder.spec_algorithm() == algorithm,
            same_text(builder.spec_name(), metadata.name),
            same_text(builder.spec_content_type(), metadata.content_type),
            builder.spec_chunks() == ids,
            builder.spec_tree_config() is None,
            builder.spec_created_at() == Some(created_at),
            builder.spec_metadata() == meta.subrange(0, j as int),
            forall|k: Seq<char>| #[trigger] value_of(builder.spec_metadata(), k) == value_of(meta.subrange(0, j as int), k),
        decreases entries@.len() - j,
    {
        proof {
            let pre = meta.subrange(0, j as int);
            let next = meta.subrange(0, j + 1);
            assert(next =~= pre.push(meta[j as int]));
            assert(crate::metadata::keys_ordered(next));
            crate::metadata::lemma_value_at(next, j as int);
            assert forall|k: Seq<char>| k != meta[j as int].0 implies #[trigger] value_of(next, k) == value_of(pre, k) by {
                crate::metadata::lemma_value_push_other(pre, meta[j as int], k);
            }
            assert forall|i: int| 0 <= i < pre.len() implies crate::dag_cbor::bytes_before(
                #[trigger] crate::dag_cbor::cbor_text(pre[i].0),
                crate::dag_cbor::cbor_text(meta[j as int].0),
            ) by {
                assert(pre[i] == meta[i]);
            }
        }
        builder = builder.metadata(entries[j].0.as_str(), entries[j].1.as_str());
        j = j + 1;
    }
    assert(meta.subrange(0, meta.len() as int) =~= meta);
    builder
}

// ---------------------------------------------------------------------------------------------
// Reading
// ---------------------------------------------------------------------------------------------

/// Configuration of batched block fetching.
#[derive(Debug, Clone, Copy)]
pub struct DagReaderConfig {
    /// Number of blocks fetched in one batch.
    pub batch_size: usize,
}

impl Default for DagReaderConfig {
    fn default() -> (r: Self)
        ensures
            r.batch_size == 50,
    {
        DagReaderConfig { batch_size: 50 }
    }
}

impl DagReaderConfig {
    /// A configuration with the given batch size, at least 1.
    pub fn with_batch_size(batch_size: usize) -> (r: Self)
        ensures
            r.batch_size == if batch_size >= 1 { batch_size } else { 1 },
    {
        DagReaderConfig { batch_size: if batch_size >= 1 { batch_size } else { 1 } }
    }

    /// The configuration `from_env` builds from the parsed value of `DAG_READER_BATCH_SIZE`
    /// (`None` when unset or not a number): that value, else 50.
    pub fn from_value(batch_size: Option<usize>) -> (r: Self)
        ensures
            r.batch_size == match batch_size {
                Some(b) => b,
                None => 50,
            },
    {
        match batch_size {
            Some(b) => DagReaderConfig { batch_size: b },
            None => DagReaderConfig { batch_size: 50 },
        }
    }
}

/// Reads content DAGs through a content provider.
#[derive(Debug)]
pub struct DagReader<P> {
    provider: P,
    config: DagReaderConfig,
}

impl<P> DagReader<P> {
    /// The reader's provider.
    pub closed spec fn spec_provider(&self) -> P {
        self.provider
    }

    /// The reader's configuration.
    pub closed spec fn spec_config(&self) -> DagReaderConfig {
        self.config
    }

    /// A reader over the provider, with the default configuration.
    pub fn with_provider(provider: P) -> (r: Self)
        ensures
            r.spec_provider() == provider,
            r.spec_config().batch_size == 50,
    {
        DagReader { provider, config: DagReaderConfig::default() }
    }

    /// A reader over the provider with the given configuration.
    pub fn with(provider: P, config: DagReaderConfig) -> (r: Self)
        ensures
            r.spec_provider() == provider,
            r.spec_config() == config,
    {
        DagReader { provider, config }
    }

    /// The underlying provider.
    pub fn provider(&self) -> (r: &P)
        ensures
            *r == self.spec_provider(),
    {
        &self.provider
    }

    /// The configuration.
    pub fn config(&self) -> (r: DagReaderConfig)
        ensures
            r == self.spec_config(),
    {
        self.config
    }
}

/// The batches `[start, end)` in which `total` blocks are fetched, `batch_size` at a time:
/// consecutive, each `batch_size` long but the last.
pub fn batch_bounds(total: usize, batch_size: usize) -> (r: Vec<(usize, usize)>)
    requires
        batch_size >= 1,
    ensures
        r@.len() == group_count(total as nat, batch_size as nat),
        forall|k: int| 0 <= k < r@.len() ==> #[trigger] r@[k] == ((k * batch_size) as usize, group_end(total as nat, batch_size as nat, k as nat) as usize),
{
    let mut out: Vec<(usize, usize)> = Vec::new();
    let mut start: usize = 0;
    let ghost bs = batch_size as nat;
    let ghost n = total as nat;
    proof {
        vstd::arithmetic::div_mod::lemma_fundamental_div_mod(n as int, bs as int);
        assert(out@.len() == 0);
        assert(0 * bs == 0);
        if n > 0 {
            let c = group_count(n, bs);
            if n % bs == 0 {
                assert(n / bs > 0) by (nonlinear_arith) requires n == bs * (n / bs) + n % bs, n % bs == 0, n > 0, bs >= 1;
            }
            assert(c > 0);
        }
    }
    while start < total
        invariant
            bs == batch_size as nat,
            n == total as nat,
            bs >= 1,
            n == bs * (n / bs) + n % bs,
            0 <= n % bs < bs,
            start <= total,
            start < n ==> start == out@.len() * bs,
            start == n && n > 0 ==> out@.len() > 0 && n <= out@.len() * bs,
            out@.len() > 0 ==> (out@.len() - 1) * bs < n,
            start < n ==> out@.len() < group_count(n, bs),
            forall|k: int| 0 <= k < out@.len() ==> #[trigger] out@[k] == ((k * batch_size) as usize, group_end(n, bs, k as nat) as usize),
        decreases total - start,
    {
        let ghost k = out@.len();
        let end = if batch_size <= total - start { start + batch_size } else { total };
        proof {
            assert((k + 1) * bs == k * bs + bs) by (nonlinear_arith);
            assert(end == group_end(n, bs, k as nat));
        }
        out.push((start, end));
        start = end;
        proof {
            if start == n {
                assert(n <= (k + 1) * bs);
            }
            if start < n {
                assert(start == (k + 1) * bs);
                let c = group_count(n, bs);
                assert((k + 1) * bs < n);
                if c <= k + 1 {
                    if n % bs == 0 {
                        assert(c * bs == n) by (nonlinear_arith) requires c == n / bs, n == bs * (n / bs) + n % bs, n % bs == 0;
                    } else {
                        assert(c * bs > n) by (nonlinear_arith) requires c == n / bs + 1, n == bs * (n / bs) + n % bs, 0 <= n % bs < bs, bs >= 1;
                    }
                    assert(c * bs <= (k + 1) * bs) by (nonlinear_arith) requires c <= k + 1, bs >= 1;
                    assert(false);
                }
            }
        }
    }
    proof {
        let c = group_count(n, bs);
        let k = out@.len();
        if n > 0 {
            assert(k >= 1);
            assert((k - 1) * bs < n);
            assert(n <= k * bs);
            if n % bs == 0 {
                assert(c == n / bs);
                assert(c * bs == n) by (nonlinear_arith) requires c == n / bs, n == bs * (n / bs) + n % bs, n % bs == 0;
                assert(c == k) by (nonlinear_arith) requires c * bs == n, (k - 1) * bs < n, n <= k * bs, bs >= 1;
            } else {
                assert(c == n / bs + 1);
                assert(c == k) by (nonlinear_arith)
                    requires c == n / bs + 1, n == bs * (n / bs) + n % bs, 0 < n % bs < bs, (k - 1) * bs < n, n <= k * bs, bs >= 1;
            }
        } else {
            assert(k == 0);
            assert(c == 0) by (nonlinear_arith) requires n == 0, c == (if n % bs == 0 { n / bs } else { n / bs + 1 }), bs >= 1;
        }
    }
    out
}

/// The content held by blocks: their data, one after the other.
pub fn content_of(blocks: &Vec<Block>) -> (r: Vec<u8>)
    ensures
        r@ == blocks_data(blocks_view(blocks@)),
{
    let mut out: Vec<u8> = Vec::new();
    let mut i: usize = 0;
    while i < blocks.len()
        invariant
            i <= blocks@.len(),
            out@ == blocks_data(blocks_view(blocks@.subrange(0, i as int))),
        decreases blocks@.len() - i,
    {
        crate::dag_cbor::push_raw(&mut out, blocks[i].data());
        proof {
            let pre = blocks_view(blocks@.subrange(0, i as int));
            let next = blocks_view(blocks@.subrange(0, i + 1));
            assert(next.drop_last() =~= pre);
            assert(next.last() == blocks@[i as int]@);
        }
        i = i + 1;
    }
    assert(blocks@.subrange(0, blocks@.len() as int) =~= blocks@);
    out
}

/// How many leading results of a batch hold a block: the position of the first missing one.
pub open spec fn found_prefix(results: Seq<Option<Block>>) -> nat
    decreases results.len(),
{
    if results.len() == 0 || results[0] is None {
        0
    } else {
        1 + found_prefix(results.drop_first())
    }
}

/// The views of the blocks found in a batch's results, up to the first missing one.
pub open spec fn found_blocks(results: Seq<Option<Block>>) -> Seq<BlockView>
    decreases results.len(),
{
    if results.len() == 0 || results[0] is None {
        Seq::empty()
    } else {
        seq![results[0]->0@] + found_blocks(results.drop_first())
    }
}

/// Takes in the results of a batch fetched for `ids[start..]`: the blocks found are appended in
/// order; a missing block ends it with `ChunkNotFound` for its identifier.
pub fn accept_batch(ids: &[ContentId], start: usize, results: &Vec<Option<Block>>, blocks: &mut Vec<Block>) -> (r: Result<(), DagError>)
    requires
        start + results@.len() <= ids@.len(),
    ensures
        blocks_view(final(blocks)@) == blocks_view(old(blocks)@) + found_blocks(results@),
        found_prefix(results@) == results@.len() ==> r is Ok,
        found_prefix(results@) < results@.len() ==> (r matches Err(DagError::ChunkNotFound(c)) && c@ == ids@[start + found_prefix(results@)]@),
{
    let ghost orig = blocks_view(blocks@);
    let n = ids.len();
    let mut i: usize = 0;
    let mut missing = false;
    proof {
        assert(results@.subrange(0, results@.len() as int) =~= results@);
    }
    while i < results.len()
        invariant_except_break
            i <= found_prefix(results@),
            found_prefix(results@.subrange(i as int, results@.len() as int)) == found_prefix(results@) - i,
            blocks_view(blocks@) + found_blocks(results@.subrange(i as int, results@.len() as int)) == orig + found_blocks(results@),
            !missing,
        invariant
            n == ids@.len(),
            start + results@.len() <= ids@.len(),
            i <= results@.len(),
        ensures
            blocks_view(blocks@) == orig + found_blocks(results@),
            missing ==> i < results@.len() && i == found_prefix(results@),
            !missing ==> found_prefix(results@) == results@.len(),
        decreases results@.len() - i,
    {
        let ghost rest = results@.subrange(i as int, results@.len() as int);
        proof {
            assert(rest[0] == results@[i as int]);
            assert(rest.drop_first() =~= results@.subrange(i + 1, results@.len() as int));
        }
        match &results[i] {
            Some(b) => {
                let c = b.clone();
                proof {
                    assert(blocks_view(blocks@.push(c)) =~= blocks_view(blocks@).push(c@));
                }
                blocks.push(c);
                proof {
                    assert(found_blocks(rest) == seq![c@] + found_blocks(rest.drop_first()));
                    assert(blocks_view(blocks@) + found_blocks(rest.drop_first()) =~= orig + found_blocks(results@));
                }
            },
            None => {
                proof {
                    assert(found_blocks(rest) =~= Seq::<BlockView>::empty());
                    assert(blocks_view(blocks@) =~= orig + found_blocks(results@));
                }
                missing = true;
                break;
            },
        }
        i = i + 1;
    }
    if missing {
        let id = ids[start + i].copy();
        return Err(DagError::ChunkNotFound(id));
    }
    Ok(())
}

/// The blocks a batched read gathers: those found in each batch's results, batch after batch.
pub open spec fn gathered(results: Seq<Seq<Option<Block>>>) -> Seq<BlockView>
    decreases results.len(),
{
    if results.len() == 0 {
        Seq::empty()
    } else {
        gathered(results.drop_last()) + found_blocks(results.last())
    }
}

/// Whether batch results are what a provider that has every block answers for the batches of
/// `batch_size` that `batch_bounds` gives: batch `j` holds `fetched[j * batch_size..]` up to
/// the batch's end, each found.
pub open spec fn delivered_in_batches(results: Seq<Seq<Option<Block>>>, fetched: Seq<Block>, batch_size: nat) -> bool {
    &&& results.len() == group_count(fetched.len(), batch_size)
    &&& forall|j: int| 0 <= j < results.len() ==> (#[trigger] results[j]).len() == group_end(fetched.len(), batch_size, j as nat) - j * batch_size
    &&& forall|j: int, i: int| 0 <= j < results.len() && 0 <= i < results[j].len() ==> #[trigger] results[j][i] == Some(
        fetched[j * batch_size + i],
    )
}

/// Results that all hold a block are found whole, in order.
proof fn lemma_found_all(rs: Seq<Option<Block>>, f: Seq<Block>, off: int)
    requires
        0 <= off,
        off + rs.len() <= f.len(),
        forall|i: int| 0 <= i < rs.len() ==> #[trigger] rs[i] == Some(f[off + i]),
    ensures
        found_blocks(rs) == blocks_view(f).subrange(off, off + rs.len()),
    decreases rs.len(),
{
    if rs.len() > 0 {
        let rest = rs.drop_first();
        assert forall|i: int| 0 <= i < rest.len() implies #[trigger] rest[i] == Some(f[(off + 1) + i]) by {
            assert(rest[i] == rs[i + 1]);
        }
        lemma_found_all(rest, f, off + 1);
        assert(rs[0] == Some(f[off]));
        assert(found_blocks(rs) =~= blocks_view(f).subrange(off, off + rs.len()));
    }
}

/// Every batch starts inside the data, and the batches reach its end.
proof fn lemma_batches_span(n: nat, bs: nat, j: nat)
    requires
        bs >= 1,
    ensures
        j < group_count(n, bs) ==> j * bs < n,
        group_count(n, bs) * bs >= n,
{
    vstd::arithmetic::div_mod::lemma_fundamental_div_mod(n as int, bs as int);
    let q = n / bs;
    let r = n % bs;
    if n % bs == 0 {
        assert(group_count(n, bs) * bs == n) by (nonlinear_arith) requires group_count(n, bs) == q, n == bs * q + r, r == 0;
        if j < group_count(n, bs) {
            assert(j * bs < n) by (nonlinear_arith) requires j < q, n == bs * q, bs >= 1;
        }
    } else {
        assert(group_count(n, bs) * bs >= n) by (nonlinear_arith) requires group_count(n, bs) == q + 1, n == bs * q + r, r < bs;
        if j < group_count(n, bs) {
            assert(j * bs < n) by (nonlinear_arith) requires j <= q, n == bs * q + r, r > 0, bs >= 1;
        }
    }
}

/// The first `m` batches gather the blocks up to the end of batch `m - 1`.
proof fn lemma_gathered_prefix(results: Seq<Seq<Option<Block>>>, fetched: Seq<Block>, bs: nat, m: nat)
    requires
        bs >= 1,
        delivered_in_batches(results, fetched, bs),
        m <= results.len(),
    ensures
        gathered(results.take(m as int)) == blocks_view(fetched).take(
            if m * bs < fetched.len() { (m * bs) as int } else { fetched.len() as int },
        ),
    decreases m,
{
    let n = fetched.len();
    if m == 0 {
        assert(results.take(0) =~= Seq::<Seq<Option<Block>>>::empty());
        assert(blocks_view(fetched).take(0) =~= Seq::<BlockView>::empty());
    } else {
        let k = (m - 1) as nat;
        lemma_gathered_prefix(results, fetched, bs, k);
        let t = results.take(m as int);
        assert(t.drop_last() =~= results.take(k as int));
        assert(t.last() == results[k as int]);
        lemma_batches_span(n, bs, k);
        assert(k * bs < n);
        assert((k + 1) * bs == m * bs);
        let rs = results[k as int];
        assert(rs.len() == group_end(n, bs, k) - k * bs);
        assert forall|i: int| 0 <= i < rs.len() implies #[trigger] rs[i] == Some(fetched[k * bs + i]) by {
            assert(results[k as int][i] == Some(fetched[k * bs + i]));
        }
        lemma_found_all(rs, fetched, (k * bs) as int);
        assert(gathered(t) =~= blocks_view(fetched).take(
            if m * bs < fetched.len() { (m * bs) as int } else { fetched.len() as int },
        ));
    }
}

/// A read in batches gathers every block in order, whatever the batch size: with each batch
/// answered in full, the blocks `accept_batch` collects over the batches of `batch_bounds` are
/// the blocks fetched, one after the other, so `content_of` gives their content.
pub proof fn law_batched_read_keeps_order(results: Seq<Seq<Option<Block>>>, fetched: Seq<Block>, batch_size: nat)
    requires
        batch_size >= 1,
        delivered_in_batches(results, fetched, batch_size),
    ensures
        gathered(results) == blocks_view(fetched),
        blocks_data(gathered(results)) == blocks_data(blocks_view(fetched)),
{
    let m = results.len();
    lemma_gathered_prefix(results, fetched, batch_size, m);
    lemma_batches_span(fetched.len(), batch_size, 0);
    assert(results.take(m as int) =~= results);
    assert(blocks_view(fetched).take(fetched.len() as int) =~= blocks_view(fetched));
}

/// The part of `bytes` in `[start, end)`, cut at the end of `bytes`.
pub open spec fn range_of(bytes: Seq<u8>, start: u64, end: u64) -> Seq<u8> {
    let len = bytes.len();
    let s = if start <= len { start as int } else { len as int };
    let e = if end <= len { end as int } else { len as int };
    if s <= e { bytes.subrange(s, e) } else { Seq::empty() }
}

/// A range's part that is as long as the range needs content up to the range's end.
pub proof fn lemma_range_len(bytes: Seq<u8>, start: u64, end: u64)
    requires
        start <= end,
    ensures
        range_of(bytes, start, end).len() >= end - start ==> (bytes.len() >= end || start == end),
        range_of(bytes, start, end).len() <= end - start,
{
}

/// Checks a requested range against the content size: a start at or beyond the size is out
/// of bounds; otherwise the range is cut at the size, and a reversed range (ending before it
/// starts) holds no bytes.
pub fn check_range(start: u64, end: u64, size: u64) -> (r: Result<(u64, u64), DagError>)
    ensures
        start >= size ==> (r matches Err(DagError::RangeOutOfBounds { start: s, end: e, size: z }) && s == start && e == end
            && z == size),
        start < size ==> r == Ok::<(u64, u64), DagError>(
            (start, if end < start { start } else if end < size { end } else { size }),
        ),
{
    if start >= size {
        return Err(DagError::RangeOutOfBounds { start, end, size });
    }
    if end < start {
        return Ok((start, start));
    }
    Ok((start, if end < size { end } else { size }))
}

/// Collects a byte range out of content that arrives chunk by chunk, in order.
pub struct RangeRead {
    start: u64,
    end: u64,
    offset: u64,
    out: Vec<u8>,
    fed: Ghost<Seq<u8>>,
}

impl RangeRead {
    /// The range's start.
    pub closed spec fn spec_start(&self) -> u64 {
        self.start
    }

    /// The range's end.
    pub closed spec fn spec_end(&self) -> u64 {
        self.end
    }

    /// The content fed so far.
    pub closed spec fn fed(&self) -> Seq<u8> {
        self.fed@
    }

    /// The bytes collected so far.
    pub closed spec fn collected(&self) -> Seq<u8> {
        self.out@
    }

    /// The collected bytes are the range's part of the content fed so far.
    pub closed spec fn wf(&self) -> bool {
        &&& self.start <= self.end
        &&& self.offset == self.fed@.len()
        &&& self.out@ == range_of(self.fed@, self.start, self.end)
    }

    /// A reader of the range `[start, end)`; a reversed range is read as the empty range at
    /// `start`.
    pub fn new(start: u64, end: u64) -> (r: Self)
        ensures
            r.wf(),
            r.spec_start() == start,
            r.spec_end() == (if end < start { start } else { end }),
            r.fed() == Seq::<u8>::empty(),
    {
        let end = if end < start { start } else { end };
        let r = RangeRead { start, end, offset: 0, out: Vec::new(), fed: Ghost(Seq::empty()) };
        assert(r.out@ =~= range_of(Seq::empty(), start, end));
        r
    }

    /// Feeds the next chunk of content; returns whether the range is complete (no later chunk
    /// can add to it): the content fed so far reaches the range's end, or the range is empty.
    pub fn step(&mut self, chunk: &[u8]) -> (done: bool)
        requires
            old(self).wf(),
            old(self).fed().len() + chunk@.len() <= u64::MAX,
        ensures
            final(self).wf(),
            final(self).spec_start() == old(self).spec_start(),
            final(self).spec_end() == old(self).spec_end(),
            final(self).fed() == old(self).fed() + chunk@,
            done == (final(self).fed().len() >= final(self).spec_end() || final(self).spec_start() == final(self).spec_end()),
    {
        let ghost before = self.fed@;
        let ghost after = before + chunk@;
        let size = chunk.len() as u64;
        let chunk_end = self.offset + size;
        let start = self.start;
        let end = self.end;
        let off = self.offset;
        if chunk_end > start && off < end {
            let cs: usize = if off < start { (start - off) as usize } else { 0 };
            let ce: usize = if chunk_end > end { (end - off) as usize } else { chunk.len() };
            let mut k: usize = cs;
            let ghost base = self.out@;
            while k < ce
                invariant
                    cs <= k <= ce <= chunk@.len(),
                    self.out@ == base + chunk@.subrange(cs as int, k as int),
                    self.start == start,
                    self.end == end,
                    self.offset == off,
                    self.fed@ == before,
                decreases ce - k,
            {
                self.out.push(chunk[k]);
                k = k + 1;
                assert(self.out@ =~= base + chunk@.subrange(cs as int, k as int));
            }
            proof {
                assert(range_of(after, start, end) =~= range_of(before, start, end) + chunk@.subrange(cs as int, ce as int));
            }
        } else {
            proof {
                assert(range_of(after, start, end) =~= range_of(before, start, end));
            }
        }
        self.fed = Ghost(after);
        self.offset = chunk_end;
        proof { lemma_range_len(after, start, end); }
        let collected = self.out.len() as u64;
        collected >= end - start || off >= end
    }

    /// The collected bytes.
    pub fn into_bytes(self) -> (r: Vec<u8>)
        ensures
            r@ == self.collected(),
    {
        self.out
    }

    /// The collected bytes are the range's part of the content fed so far.
    pub proof fn lemma_collected(&self)
        requires
            self.wf(),
        ensures
            self.collected() == range_of(self.fed(), self.spec_start(), self.spec_end()),
    {
    }
}

/// Once the content reaches the end of a range, more content does not change the range's
/// part: stopping a range read when `step` says it is complete loses nothing.
pub proof fn law_complete_range_is_final(fed: Seq<u8>, more: Seq<u8>, start: u64, end: u64)
    requires
        start <= end,
        fed.len() >= end || start == end,
    ensures
        range_of(fed + more, start, end) == range_of(fed, start, end),
{
    assert(range_of(fed + more, start, end) =~= range_of(fed, start, end));
}


/// Where the walk over a manifest with these children and this structure starts, as
/// `TreeWalk::of_manifest` starts it.
pub open spec fn walk_start(children: Seq<IdView>, structure: ManifestStructure) -> WalkView {
    if structure is Flat {
        (Seq::<FrameView>::empty(), children, 0nat)
    } else {
        (seq![(children, 0nat)], Seq::<IdView>::empty(), 0nat)
    }
}

/// The identifiers of blocks, in order.
pub open spec fn block_ids(bs: Seq<BlockView>) -> Seq<IdView> {
    bs.map_values(|b: BlockView| b.0)
}

/// Reading published content back gives the content: the walk over the manifest built over
/// the chunk blocks' identifiers (each tree node answered with what was built for it) has
/// exactly those identifiers to give, in order, and chunk blocks fetched in that order, each
/// the block stored under its identifier, hold the content.
pub proof fn law_published_content_reads_back(
    chunks: Seq<BlockView>,
    data: Seq<u8>,
    config: TreeConfig,
    nodes: spec_fn(IdView) -> (Seq<IdView>, bool),
    fetched: Seq<BlockView>,
)
    requires
        blocks_data(chunks) == data,
        chunks.len() > config.flat_threshold ==> config.fanout >= 2 && tree_consistent(
            block_ids(chunks),
            config.fanout as nat,
            nodes,
        ),
        fetched.len() == chunks.len(),
        forall|k: int| 0 <= k < chunks.len() ==> #[trigger] fetched[k] == chunks[k],
    ensures
        remaining(
            walk_start(built_tree(block_ids(chunks), config).0, built_tree(block_ids(chunks), config).1),
            nodes,
            tree_of(block_ids(chunks), config.fanout as nat).1,
        ) == block_ids(chunks),
        block_ids(fetched) == block_ids(chunks),
        blocks_data(fetched) == data,
{
    let ids = block_ids(chunks);
    let f = config.fanout as nat;
    if ids.len() <= config.flat_threshold {
        law_flat_walk(ids, nodes, tree_of(ids, f).1);
    } else {
        law_built_tree_walk(ids, f, nodes);
    }
    assert(fetched =~= chunks);
}


/// Two sequences of RAW chunk blocks with the same data, block by block, are the same.
proof fn lemma_same_raw_blocks(c1: Seq<BlockView>, c2: Seq<BlockView>)
    requires
        raw_blocks(c1),
        raw_blocks(c2),
        c1.len() == c2.len(),
        forall|k: int| 0 <= k < c1.len() ==> #[trigger] c1[k].1 == c2[k].1,
    ensures
        c1 == c2,
{
    assert forall|k: int| 0 <= k < c1.len() implies #[trigger] c1[k] == c2[k] by {
        assert(c1[k].1 == c2[k].1);
        assert(c1[k].0 == id_of(RAW_CODEC, c1[k].1));
        assert(c2[k].0 == id_of(RAW_CODEC, c2[k].1));
        assert(c1[k].2 =~= c2[k].2);
    }
    assert(c1 =~= c2);
}

/// Publishing is deterministic: the same chunker, content, metadata and creation time plan the
/// same chunk blocks, tree blocks and manifest block, and so the same root identifier.
#[verifier::rlimit(40)]
#[verifier::spinoff_prover]
pub proof fn law_plan_is_deterministic(
    p1: DagPlan,
    p2: DagPlan,
    chunker: SelectedChunker,
    data: Seq<u8>,
    metadata: DagMetadata,
    created_at: u64,
)
    requires
        planned(p1, chunker, data, metadata, created_at),
        planned(p2, chunker, data, metadata, created_at),
    ensures
        blocks_view(p1.chunk_blocks@) == blocks_view(p2.chunk_blocks@),
        blocks_view(p1.tree_blocks@) == blocks_view(p2.tree_blocks@),
        p1.manifest_block@ == p2.manifest_block@,
        p1.result.root_cid@ == p2.result.root_cid@,
{
    let c1 = blocks_view(p1.chunk_blocks@);
    let c2 = blocks_view(p2.chunk_blocks@);
    let spans = chunker.chunk_spans(data);
    assert forall|k: int| 0 <= k < c1.len() implies #[trigger] c1[k].1 == c2[k].1 by {
        assert(c1[k].1 == data.subrange(spans[k].0, span_end(spans[k])));
        assert(c2[k].1 == data.subrange(spans[k].0, span_end(spans[k])));
    }
    lemma_same_raw_blocks(c1, c2);
    let m1 = p1.result.manifest;
    let m2 = p2.result.manifest;
    assert(crate::manifest_read::same_manifest(m1, m2));
    crate::manifest_read::law_same_manifest_same_encoding(m1, m2);
}

} // verus!
