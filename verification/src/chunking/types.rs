//! Chunk references, chunk data, and what it means for chunks to tile their input.

use vstd::prelude::*;

use crate::content_id::{ContentId, RAW_CODEC, id_of};

verus! {

#[verifier::external_type_specification]
#[verifier::external_body]
pub struct ExIoError(std::io::Error);

/// Error of streaming chunking.
#[derive(Debug)]
pub enum StreamingChunkError {
    /// IO error while reading the input.
    Io(std::io::Error),
}

/// Reference to a chunk within a larger document: the CID of the chunk's block plus its
/// byte range in the original file.
#[derive(Debug, Clone, PartialEq, Eq)]
pub struct ChunkRef {
    /// Content identifier of this chunk's block.
    pub cid: ContentId,
    /// Byte offset in the original file where this chunk starts.
    pub offset: u64,
    /// Size of this chunk in bytes.
    pub size: u32,
}

impl ChunkRef {
    /// A new chunk reference.
    pub fn new(cid: ContentId, offset: u64, size: u32) -> (r: Self)
        ensures
            r.cid@ == cid@ && r.offset == offset && r.size == size,
    {
        ChunkRef { cid, offset, size }
    }

    /// The byte range this chunk covers (start..end).
    pub fn byte_range(&self) -> (r: std::ops::Range<u64>)
        requires
            self.offset + self.size <= u64::MAX,
        ensures
            r.start == self.offset && r.end == self.offset + self.size,
    {
        self.offset..self.offset + self.size as u64
    }

    /// Whether this chunk contains the given byte offset.
    pub fn contains_offset(&self, offset: u64) -> (r: bool)
        requires
            self.offset + self.size <= u64::MAX,
        ensures
            r == (self.offset <= offset && offset < self.offset + self.size),
    {
        offset >= self.offset && offset < self.offset + self.size as u64
    }
}

/// Output of the chunking process: raw bytes with the offset where they start in the input.
#[derive(Debug, Clone, PartialEq, Eq)]
pub struct ChunkData {
    /// The raw chunk bytes.
    pub data: Vec<u8>,
    /// Byte offset in the original input where this chunk starts.
    pub offset: u64,
}

impl ChunkData {
    /// New chunk data.
    pub fn new(data: Vec<u8>, offset: u64) -> (r: Self)
        ensures
            r.data@ == data@ && r.offset == offset,
    {
        ChunkData { data, offset }
    }

    /// The size of this chunk.
    pub fn size(&self) -> (r: usize)
        ensures
            r == self.data@.len(),
    {
        self.data.len()
    }

    /// The reference to this chunk: the RAW CID of its bytes, its offset, and its size
    /// (truncated to 32 bits, as the size field holds).
    pub fn to_chunk_ref(&self) -> (r: ChunkRef)
        ensures
            r.cid@ == id_of(RAW_CODEC, self.data@),
            r.offset == self.offset,
            r.size == self.data@.len() as u32,
    {
        let cid = ContentId::from_bytes(self.data.as_slice());
        ChunkRef::new(cid, self.offset, self.data.len() as u32)
    }
}

/// End (exclusive) of a chunk in the input.
pub open spec fn chunk_end(c: ChunkData) -> int {
    c.offset + c.data@.len()
}

/// The chunks cover `data` exactly: in order, contiguous from offset 0 to the end, each
/// non-empty and holding the bytes of the input at its range.
pub open spec fn is_tiling(chunks: Seq<ChunkData>, data: Seq<u8>) -> bool {
    &&& (chunks.len() == 0 <==> data.len() == 0)
    &&& chunks.len() > 0 ==> chunks[0].offset == 0 && chunk_end(chunks.last()) == data.len()
    &&& forall|i: int| 0 <= i < chunks.len() ==> {
        &&& #[trigger] chunks[i].data@.len() > 0
        &&& chunk_end(chunks[i]) <= data.len()
        &&& chunks[i].data@ == data.subrange(chunks[i].offset as int, chunk_end(chunks[i]))
    }
    &&& forall|i: int| 1 <= i < chunks.len() ==> #[trigger] chunks[i].offset == chunk_end(chunks[i - 1])
}

/// The bytes of the chunks, concatenated in order.
pub open spec fn concat_chunks(chunks: Seq<ChunkData>) -> Seq<u8>
    decreases chunks.len(),
{
    if chunks.len() == 0 {
        Seq::empty()
    } else {
        concat_chunks(chunks.drop_last()) + chunks.last().data@
    }
}

/// Every chunk is at most `max` bytes long.
pub open spec fn all_at_most(chunks: Seq<ChunkData>, max: int) -> bool {
    forall|i: int| 0 <= i < chunks.len() ==> #[trigger] chunks[i].data@.len() <= max
}

/// Every chunk but the last is at least `min` bytes long.
pub open spec fn all_but_last_at_least(chunks: Seq<ChunkData>, min: int) -> bool {
    forall|i: int| 0 <= i < chunks.len() - 1 ==> #[trigger] chunks[i].data@.len() >= min
}

/// Concatenating the chunks of a tiling gives back the input.
pub proof fn law_tiling_reconstructs(chunks: Seq<ChunkData>, data: Seq<u8>)
    requires
        is_tiling(chunks, data),
    ensures
        concat_chunks(chunks) == data,
    decreases chunks.len(),
{
    if chunks.len() == 0 {
        assert(data =~= Seq::<u8>::empty());
    } else {
        let last = chunks.last();
        let prefix = chunks.drop_last();
        let cut = last.offset as int;
        let sub = data.subrange(0, cut);
        if prefix.len() > 0 {
            assert(prefix[prefix.len() - 1] == chunks[chunks.len() - 2]);
            assert(chunks[chunks.len() - 1].offset == chunk_end(chunks[chunks.len() - 2]));
            assert forall|i: int| 0 <= i < prefix.len() implies {
                &&& #[trigger] prefix[i].data@.len() > 0
                &&& chunk_end(prefix[i]) <= sub.len()
                &&& prefix[i].data@ == sub.subrange(prefix[i].offset as int, chunk_end(prefix[i]))
            } by {
                assert(prefix[i] == chunks[i]);
                lemma_offsets_increase(chunks, data, i, chunks.len() - 1);
                assert(sub.subrange(prefix[i].offset as int, chunk_end(prefix[i])) =~= data.subrange(
                    prefix[i].offset as int,
                    chunk_end(prefix[i]),
                ));
            }
            assert forall|i: int| 1 <= i < prefix.len() implies #[trigger] prefix[i].offset
                == chunk_end(prefix[i - 1]) by {
                assert(prefix[i] == chunks[i]);
                assert(prefix[i - 1] == chunks[i - 1]);
            }
            assert(chunks[0].offset == 0);
            assert(prefix[0] == chunks[0]);
            lemma_offsets_increase(chunks, data, 0, chunks.len() - 1);
            assert(is_tiling(prefix, sub));
            law_tiling_reconstructs(prefix, sub);
        } else {
            assert(cut == 0);
            assert(sub =~= Seq::<u8>::empty());
            assert(concat_chunks(prefix) =~= Seq::<u8>::empty());
        }
        assert(last.data@ == data.subrange(cut, data.len() as int));
        assert(data =~= sub + data.subrange(cut, data.len() as int));
    }
}

/// In a tiling, a later chunk starts no earlier than an earlier chunk ends.
pub proof fn lemma_offsets_increase(chunks: Seq<ChunkData>, data: Seq<u8>, i: int, j: int)
    requires
        is_tiling(chunks, data),
        0 <= i < j < chunks.len(),
    ensures
        chunk_end(chunks[i]) <= chunks[j].offset,
    decreases j - i,
{
    if j == i + 1 {
    } else {
        lemma_offsets_increase(chunks, data, i, j - 1);
        assert(chunks[j - 1].data@.len() > 0);
        assert(chunks[j].offset == chunk_end(chunks[j - 1]));
    }
}

} // verus!
