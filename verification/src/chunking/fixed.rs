//! Fixed-size chunker.

use vstd::prelude::*;

use super::config::ChunkingConfig;
use super::rabin::slice_to_vec;
use super::spans::{
    chunks_match, lemma_advance, lemma_cover_prepend, lemma_match_cover_tiles, lemma_match_push,
    lemma_span_inside, spans_cover,
};
use super::types::{ChunkData, all_at_most, is_tiling};

verus! {

/// The spans fixed-size chunking cuts `[start, len)` into: runs of `size` bytes, the last
/// one shorter when the length is not a multiple of `size`.
pub open spec fn fixed_spans(len: int, size: int, start: int) -> Seq<(int, int)>
    decreases len - start,
{
    if start < 0 || start >= len || size <= 0 {
        Seq::empty()
    } else {
        let n = if size <= len - start { size } else { len - start };
        seq![(start, n)] + fixed_spans(len, size, start + n)
    }
}

/// Fixed spans cover the data from their start to the end.
pub proof fn lemma_fixed_spans_cover(len: int, size: int, start: int)
    requires
        0 <= start <= len,
        size > 0,
    ensures
        spans_cover(fixed_spans(len, size, start), start, len),
        forall|i: int| 0 <= i < fixed_spans(len, size, start).len() ==> #[trigger] fixed_spans(len, size, start)[i].1 <= size,
        forall|i: int| 0 <= i < fixed_spans(len, size, start).len() - 1 ==> #[trigger] fixed_spans(len, size, start)[i].1 == size,
    decreases len - start,
{
    if start < len {
        let n = if size <= len - start { size } else { len - start };
        lemma_fixed_spans_cover(len, size, start + n);
        let rest = fixed_spans(len, size, start + n);
        let s = fixed_spans(len, size, start);
        lemma_cover_prepend((start, n), rest, len);
        assert forall|i: int| 0 <= i < s.len() implies #[trigger] s[i].1 <= size by {
            if i > 0 {
                assert(s[i] == rest[i - 1]);
            }
        }
        assert forall|i: int| 0 <= i < s.len() - 1 implies #[trigger] s[i].1 == size by {
            if i > 0 {
                assert(s[i] == rest[i - 1]);
            } else {
                assert(rest.len() > 0);
                assert(start + n < len);
            }
        }
    }
}

/// Fixed-size chunker: chunks of exactly `target_size` bytes, the last one possibly shorter.
#[derive(Debug, Clone)]
pub struct FixedChunker {
    config: ChunkingConfig,
}

impl FixedChunker {
    /// The chunker's configuration.
    pub closed spec fn spec_config(&self) -> ChunkingConfig {
        self.config
    }

    /// A fixed-size chunker that cuts at `config.target_size`.
    pub fn new(config: ChunkingConfig) -> (r: Self)
        ensures
            r.spec_config() == config,
    {
        FixedChunker { config }
    }

    /// A fixed-size chunker with the same size for minimum, target and maximum.
    pub fn with_size(size: usize) -> (r: Self)
        ensures
            r.spec_config() == (ChunkingConfig { min_size: size, target_size: size, max_size: size }),
    {
        Self::new(ChunkingConfig::new(size, size, size))
    }

    /// The configuration of this chunker.
    pub fn config(&self) -> (r: &ChunkingConfig)
        ensures
            *r == self.spec_config(),
    {
        &self.config
    }

    /// Splits `data` into chunks of `target_size` bytes (a zero size would never finish).
    pub fn chunk(&self, data: &[u8]) -> (r: Vec<ChunkData>)
        requires
            self.spec_config().target_size > 0,
        ensures
            chunks_match(r@, data@, fixed_spans(data@.len() as int, self.spec_config().target_size as int, 0)),
            is_tiling(r@, data@),
            all_at_most(r@, self.spec_config().target_size as int),
            forall|i: int| 0 <= i < r@.len() - 1 ==> #[trigger] r@[i].data@.len() == self.spec_config().target_size,
    {
        let size = self.config.target_size;
        let ghost len = data@.len() as int;
        let ghost spans = fixed_spans(len, size as int, 0);
        proof {
            lemma_fixed_spans_cover(len, size as int, 0);
            assert(spans.subrange(0, spans.len() as int) =~= spans);
            assert(spans.subrange(0, 0) =~= Seq::<(int, int)>::empty());
        }
        let mut chunks: Vec<ChunkData> = Vec::new();
        let mut offset: usize = 0;
        while offset < data.len()
            invariant
                size == self.config.target_size,
                size > 0,
                len == data@.len(),
                spans == fixed_spans(len, size as int, 0),
                offset <= len,
                chunks@.len() <= spans.len(),
                spans.subrange(chunks@.len() as int, spans.len() as int) == fixed_spans(len, size as int, offset as int),
                chunks_match(chunks@, data@, spans.subrange(0, chunks@.len() as int)),
            decreases len - offset,
        {
            let start = offset;
            let end = if size <= data.len() - start { start + size } else { data.len() };
            let ghost k = chunks@.len() as int;
            proof {
                let n = (end - start) as int;
                assert(fixed_spans(len, size as int, start as int) == seq![(start as int, n)] + fixed_spans(len, size as int, start + n));
                lemma_advance(spans, k, (start as int, n), fixed_spans(len, size as int, start + n));
            }
            let new_chunk = ChunkData::new(slice_to_vec(data, start, end), start as u64);
            proof {
                lemma_match_push(chunks@, data@, spans, new_chunk);
            }
            chunks.push(new_chunk);
            offset = end;
        }
        proof {
            assert(fixed_spans(len, size as int, offset as int).len() == 0);
            assert(chunks@.len() == spans.len());
            assert(spans.subrange(0, chunks@.len() as int) =~= spans);
            lemma_match_cover_tiles(chunks@, data@, spans);
            let c = chunks@;
            assert forall|j: int| 0 <= j < c.len() implies #[trigger] c[j].data@.len() <= size by {
                lemma_span_inside(spans, 0, len, j);
            }
            assert forall|j: int| 0 <= j < c.len() - 1 implies #[trigger] c[j].data@.len() == size by {
                lemma_span_inside(spans, 0, len, j);
            }
        }
        chunks
    }
}

} // verus!
