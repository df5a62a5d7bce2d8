//! FastCDC content-defined chunker (by the `fastcdc` crate, 2020 variant).

use vstd::prelude::*;

use super::config::ChunkingConfig;
use super::rabin::slice_to_vec;
use super::spans::{
    chunks_match, lemma_match_cover_tiles, lemma_match_push, lemma_span_inside, span_end,
    spans_cover,
};
use super::types::{ChunkData, all_at_most, is_tiling};

verus! {

/// The chunks (offset, length) that `fastcdc::v2020::FastCDC` yields for the data and sizes.
pub uninterp spec fn fastcdc_cuts(data: Seq<u8>, min_size: u32, avg_size: u32, max_size: u32) -> Seq<(usize, usize)>;

/// Cut list as integer spans.
pub open spec fn cut_spans(cuts: Seq<(usize, usize)>) -> Seq<(int, int)> {
    cuts.map_values(|c: (usize, usize)| (c.0 as int, c.1 as int))
}

/// The size limits within which FastCDC runs without panicking: each size within the range
/// that `FastCDC::new` asserts, and the average at most the maximum (with an average above
/// the maximum, the cut search indexes past the end of inputs shorter than the average).
pub open spec fn fastcdc_sizes_ok(min_size: usize, avg_size: usize, max_size: usize) -> bool {
    &&& 64 <= min_size <= 1048576
    &&& 256 <= avg_size <= 4194304
    &&& 1024 <= max_size <= 16777216
    &&& avg_size <= max_size
}

/// The spans FastCDC cuts the data into, for a configuration within the accepted limits.
pub open spec fn fastcdc_spans(data: Seq<u8>, config: ChunkingConfig) -> Seq<(int, int)> {
    if data.len() == 0 {
        Seq::empty()
    } else {
        cut_spans(fastcdc_cuts(data, config.min_size as u32, config.target_size as u32, config.max_size as u32))
    }
}

/// Runs `fastcdc::v2020::FastCDC::new(data, min, avg, max)` to the end and keeps each chunk's
/// offset and length.
/// Trusted: the list is what `fastcdc_cuts` names. From the crate's source: the iterator
/// starts at offset 0, each chunk starts where the previous ended, a chunk is never empty
/// (the cut search starts past `min/2 >= 32` bytes, or takes all remaining bytes when at most
/// `min` remain), the iteration stops exactly when no bytes remain, and, where `min <= max`,
/// a chunk is at most `max` bytes (`cut_gear` caps the search at `max`, and with `avg <= max`
/// its first loop stays within that cap; a remainder of at most `min` bytes is taken whole).
/// With `min > max` such a remainder can exceed `max`.
#[verifier::external_body]
pub(crate) fn fastcdc_cut_list(data: &[u8], min_size: u32, avg_size: u32, max_size: u32) -> (r: Vec<(usize, usize)>)
    requires
        fastcdc_sizes_ok(min_size as usize, avg_size as usize, max_size as usize),
    ensures
        r@ == fastcdc_cuts(data@, min_size, avg_size, max_size),
        spans_cover(cut_spans(r@), 0, data@.len() as int),
        min_size <= max_size ==> forall|i: int| 0 <= i < r@.len() ==> #[trigger] r@[i].1 <= max_size,
{
    fastcdc::v2020::FastCDC::new(data, min_size, avg_size, max_size).map(|c| (c.offset, c.length)).collect()
}

/// FastCDC content-defined chunker: fast, with excellent deduplication.
#[derive(Debug, Clone)]
pub struct FastCdcChunker {
    config: ChunkingConfig,
}

impl FastCdcChunker {
    /// The chunker's configuration.
    pub closed spec fn spec_config(&self) -> ChunkingConfig {
        self.config
    }

    /// A FastCDC chunker with the given configuration.
    pub fn new(config: ChunkingConfig) -> (r: Self)
        ensures
            r.spec_config() == config,
    {
        FastCdcChunker { config }
    }

    /// The configuration of this chunker.
    pub fn config(&self) -> (r: &ChunkingConfig)
        ensures
            *r == self.spec_config(),
    {
        &self.config
    }

    /// Splits `data` at FastCDC boundaries (no chunks for empty data).
    pub fn chunk(&self, data: &[u8]) -> (r: Vec<ChunkData>)
        requires
            data@.len() > 0 ==> fastcdc_sizes_ok(self.spec_config().min_size, self.spec_config().target_size, self.spec_config().max_size),
        ensures
            chunks_match(r@, data@, fastcdc_spans(data@, self.spec_config())),
            is_tiling(r@, data@),
            self.spec_config().min_size <= self.spec_config().max_size ==> all_at_most(r@, self.spec_config().max_size as int),
    {
        let mut chunks: Vec<ChunkData> = Vec::new();
        if data.len() == 0 {
            proof {
                assert(fastcdc_spans(data@, self.config) =~= Seq::<(int, int)>::empty());
                lemma_match_cover_tiles(chunks@, data@, Seq::<(int, int)>::empty());
            }
            return chunks;
        }
        let cuts = fastcdc_cut_list(
            data,
            self.config.min_size as u32,
            self.config.target_size as u32,
            self.config.max_size as u32,
        );
        let ghost spans = cut_spans(cuts@);
        let ghost bound = self.config.max_size as int;
        let mut k: usize = 0;
        proof {
            assert(spans.subrange(0, 0) =~= Seq::<(int, int)>::empty());
        }
        while k < cuts.len()
            invariant
                spans == cut_spans(cuts@),
                spans_cover(spans, 0, data@.len() as int),
                k <= cuts@.len(),
                chunks@.len() == k,
                chunks_match(chunks@, data@, spans.subrange(0, k as int)),
            decreases cuts@.len() - k,
        {
            let (offset, length) = cuts[k];
            let data_len = data.len();
            proof {
                lemma_span_inside(spans, 0, data@.len() as int, k as int);
                assert(spans[k as int] == (offset as int, length as int));
                assert(span_end(spans[k as int]) <= data@.len());
                assert(offset + length <= data@.len());
            }
            let new_chunk = ChunkData::new(slice_to_vec(data, offset, offset + length), offset as u64);
            proof {
                lemma_match_push(chunks@, data@, spans, new_chunk);
            }
            chunks.push(new_chunk);
            k = k + 1;
        }
        proof {
            assert(spans.subrange(0, k as int) =~= spans);
            lemma_match_cover_tiles(chunks@, data@, spans);
            let c = chunks@;
            if self.config.min_size <= self.config.max_size {
                assert forall|j: int| 0 <= j < c.len() implies #[trigger] c[j].data@.len() <= bound by {
                    lemma_span_inside(spans, 0, data@.len() as int, j);
                    assert(cuts@[j].1 <= bound);
                }
            }
        }
        chunks
    }
}

} // verus!
