//! Rabin fingerprint chunker (the content-defined chunking that IPFS uses).

use vstd::prelude::*;

use super::config::ChunkingConfig;
use super::rabin_core::{
    IPFS_POLYNOMIAL, RabinCore, WINDOW_SIZE, cut_search, law_cut_is_boundary_of_rest, law_window_cut_is_cut_of_rest,
    lemma_cut_search_bounds, mask_spec, rabin_cut, seg_hash, stops_at,
};
use super::spans::{
    chunks_match, lemma_advance, lemma_cover_prepend, lemma_match_cover_tiles, lemma_match_push, lemma_span_inside,
    spans_cover,
};
use super::types::{ChunkData, all_at_most, all_but_last_at_least, is_tiling};

verus! {

/// The spans Rabin chunking cuts `data[start..]` into: each chunk runs to the first boundary
/// at or past the minimum size, or to the maximum size, or to the end of the data.
pub open spec fn rabin_spans(poly: u64, mask: u64, data: Seq<u8>, start: int, min_size: usize, max_size: usize) -> Seq<(int, int)>
    decreases data.len() - start,
{
    if start < 0 || start >= data.len() {
        Seq::empty()
    } else {
        let n = cut_search(poly, mask, data, start, min_size, max_size, 1);
        proof {
            lemma_cut_search_bounds(poly, mask, data, start, min_size, max_size, 1);
        }
        seq![(start, n as int)] + rabin_spans(poly, mask, data, start + n, min_size, max_size)
    }
}

/// Rabin spans cover the data from their start to the end.
pub proof fn lemma_rabin_spans_cover(poly: u64, mask: u64, data: Seq<u8>, start: int, min_size: usize, max_size: usize)
    requires
        0 <= start <= data.len(),
    ensures
        spans_cover(rabin_spans(poly, mask, data, start, min_size, max_size), start, data.len() as int),
    decreases data.len() - start,
{
    if start < data.len() {
        let n = cut_search(poly, mask, data, start, min_size, max_size, 1);
        lemma_cut_search_bounds(poly, mask, data, start, min_size, max_size, 1);
        lemma_rabin_spans_cover(poly, mask, data, start + n, min_size, max_size);
        lemma_cover_prepend((start, n as int), rabin_spans(poly, mask, data, start + n, min_size, max_size), data.len() as int);
    }
}

/// A Rabin cut is at most the maximum size (at least one byte when the maximum is zero).
pub proof fn lemma_cut_at_most_max(poly: u64, mask: u64, data: Seq<u8>, start: int, min_size: usize, max_size: usize, n: nat)
    requires
        0 <= start < data.len(),
        1 <= n,
        n <= max_size || n == 1,
    ensures
        cut_search(poly, mask, data, start, min_size, max_size, n) <= max_bound(max_size) as nat,
    decreases data.len() - start - n,
{
    if start + n >= data.len() {
    } else if stops_at(poly, mask, data, start, n, min_size, max_size) {
    } else {
        lemma_cut_at_most_max(poly, mask, data, start, min_size, max_size, n + 1);
    }
}

/// A Rabin cut that ends before the data does is at least the minimum size, when the minimum
/// does not exceed the maximum.
pub proof fn lemma_cut_at_least_min(poly: u64, mask: u64, data: Seq<u8>, start: int, min_size: usize, max_size: usize, n: nat)
    requires
        0 <= start < data.len(),
        1 <= n,
        min_size <= max_size,
        start + cut_search(poly, mask, data, start, min_size, max_size, n) < data.len(),
    ensures
        cut_search(poly, mask, data, start, min_size, max_size, n) >= min_size,
    decreases data.len() - start - n,
{
    if start + n >= data.len() {
    } else if stops_at(poly, mask, data, start, n, min_size, max_size) {
    } else {
        lemma_cut_at_least_min(poly, mask, data, start, min_size, max_size, n + 1);
    }
}

/// Sizes of Rabin spans: at most the maximum, and (but for the last) at least the minimum.
pub proof fn lemma_rabin_span_sizes(poly: u64, mask: u64, data: Seq<u8>, start: int, min_size: usize, max_size: usize)
    requires
        0 <= start <= data.len(),
    ensures
        ({
            let s = rabin_spans(poly, mask, data, start, min_size, max_size);
            &&& forall|i: int| 0 <= i < s.len() ==> #[trigger] s[i].1 <= max_bound(max_size)
            &&& min_size <= max_size ==> forall|i: int| 0 <= i < s.len() - 1 ==> #[trigger] s[i].1 >= min_size
        }),
    decreases data.len() - start,
{
    if start < data.len() {
        let n = cut_search(poly, mask, data, start, min_size, max_size, 1);
        lemma_cut_search_bounds(poly, mask, data, start, min_size, max_size, 1);
        lemma_cut_at_most_max(poly, mask, data, start, min_size, max_size, 1);
        lemma_rabin_span_sizes(poly, mask, data, start + n, min_size, max_size);
        let rest = rabin_spans(poly, mask, data, start + n, min_size, max_size);
        let s = rabin_spans(poly, mask, data, start, min_size, max_size);
        assert(s == seq![(start, n as int)] + rest);
        lemma_rabin_spans_cover(poly, mask, data, start + n, min_size, max_size);
        assert forall|i: int| 0 <= i < s.len() implies #[trigger] s[i].1 <= max_bound(max_size) by {
            if i > 0 {
                assert(s[i] == rest[i - 1]);
            }
        }
        if min_size <= max_size {
            assert forall|i: int| 0 <= i < s.len() - 1 implies #[trigger] s[i].1 >= min_size by {
                if i > 0 {
                    assert(s[i] == rest[i - 1]);
                } else {
                    assert(rest.len() > 0);
                    lemma_cut_at_least_min(poly, mask, data, start, min_size, max_size, 1);
                }
            }
        }
    }
}

/// Rabin fingerprint chunker: content-defined chunking compatible with IPFS.
#[derive(Debug, Clone)]
pub struct RabinChunker {
    config: ChunkingConfig,
    core: RabinCore,
}

impl RabinChunker {
    /// The chunker's configuration.
    pub closed spec fn spec_config(&self) -> ChunkingConfig {
        self.config
    }

    /// The chunker's polynomial and boundary mask.
    pub closed spec fn spec_core(&self) -> (u64, u64) {
        self.core@
    }

    /// A Rabin chunker with the IPFS polynomial.
    pub fn new(config: ChunkingConfig) -> (r: Self)
        ensures
            r.spec_config() == config,
            r.spec_core() == (IPFS_POLYNOMIAL, mask_spec(config.target_size as nat) as u64),
    {
        Self::with_polynomial(config, IPFS_POLYNOMIAL)
    }

    /// A Rabin chunker with a custom polynomial.
    pub fn with_polynomial(config: ChunkingConfig, polynomial: u64) -> (r: Self)
        ensures
            r.spec_config() == config,
            r.spec_core() == (polynomial, mask_spec(config.target_size as nat) as u64),
    {
        let core = RabinCore::with_polynomial(&config, polynomial);
        RabinChunker { config, core }
    }

    /// The polynomial used by this chunker.
    pub fn polynomial(&self) -> (r: u64)
        ensures
            r == self.spec_core().0,
    {
        self.core.polynomial()
    }

    /// The Rabin core of this chunker.
    pub fn rabin_core(&self) -> (r: &RabinCore)
        ensures
            r@ == self.spec_core(),
    {
        &self.core
    }

    /// The configuration of this chunker.
    pub fn config(&self) -> (r: &ChunkingConfig)
        ensures
            *r == self.spec_config(),
    {
        &self.config
    }

    /// Splits `data` into chunks at Rabin boundaries.
    #[verifier::rlimit(40)]
    #[verifier::spinoff_prover]
    pub fn chunk(&self, data: &[u8]) -> (r: Vec<ChunkData>)
        ensures
            chunks_match(r@, data@, rabin_spans(self.spec_core().0, self.spec_core().1, data@, 0,
                self.spec_config().min_size, self.spec_config().max_size)),
            is_tiling(r@, data@),
            all_at_most(r@, max_bound(self.spec_config().max_size)),
            self.spec_config().min_size <= self.spec_config().max_size ==> all_but_last_at_least(r@, self.spec_config().min_size as int),
    {
        let ghost poly = self.core@.0;
        let ghost mask = self.core@.1;
        let min_size = self.config.min_size;
        let max_size = self.config.max_size;
        let ghost spans = rabin_spans(poly, mask, data@, 0, min_size, max_size);
        let mut chunks: Vec<ChunkData> = Vec::new();
        let mut chunk_start: usize = 0;
        let mut hash: u64 = 0;
        let mut i: usize = 0;
        proof {
            assert(spans.subrange(0, spans.len() as int) =~= spans);
            assert(spans.subrange(0, 0) =~= Seq::<(int, int)>::empty());
        }
        while i < data.len()
            invariant
                poly == self.core@.0,
                mask == self.core@.1,
                min_size == self.config.min_size,
                max_size == self.config.max_size,
                spans == rabin_spans(poly, mask, data@, 0, min_size, max_size),
                chunk_start <= i <= data@.len(),
                chunk_start == i || i < data@.len(),
                hash == seg_hash(poly, data@, chunk_start as int, (i - chunk_start) as nat),
                chunk_start < data@.len() ==> cut_search(poly, mask, data@, chunk_start as int, min_size, max_size, 1)
                    == cut_search(poly, mask, data@, chunk_start as int, min_size, max_size, (i - chunk_start + 1) as nat),
                chunks@.len() <= spans.len(),
                spans.subrange(chunks@.len() as int, spans.len() as int)
                    == rabin_spans(poly, mask, data@, chunk_start as int, min_size, max_size),
                chunks_match(chunks@, data@, spans.subrange(0, chunks@.len() as int)),
            decreases data@.len() - i,
        {
            hash = self.next_hash(data, chunk_start, i, hash);
            let chunk_len = i - chunk_start + 1;
            let at_boundary = self.core.is_boundary(hash) && chunk_len >= min_size;
            let at_max = chunk_len >= max_size;
            let is_end = i == data.len() - 1;
            if at_boundary || at_max || is_end {
                let ghost k: int = chunks@.len() as int;
                let ghost cs = chunk_start as int;
                let ghost rest = rabin_spans(poly, mask, data@, cs + chunk_len, min_size, max_size);
                proof {
                    assert(cut_search(poly, mask, data@, cs, min_size, max_size, chunk_len as nat) == chunk_len);
                    assert(rabin_spans(poly, mask, data@, cs, min_size, max_size) == seq![(cs, chunk_len as int)] + rest);
                    lemma_advance(spans, k, (cs, chunk_len as int), rest);
                }
                let chunk_data = slice_to_vec(data, chunk_start, i + 1);
                let new_chunk = ChunkData::new(chunk_data, chunk_start as u64);
                proof {
                    lemma_match_push(chunks@, data@, spans, new_chunk);
                }
                chunks.push(new_chunk);
                chunk_start = i + 1;
                hash = 0;
            } else {
                proof {
                    assert(!stops_at(poly, mask, data@, chunk_start as int, chunk_len as nat, min_size, max_size));
                }
            }
            i = i + 1;
        }
        proof {
            lemma_rabin_spans_cover(poly, mask, data@, 0, min_size, max_size);
            lemma_rabin_span_sizes(poly, mask, data@, 0, min_size, max_size);
            assert(rabin_spans(poly, mask, data@, chunk_start as int, min_size, max_size).len() == 0);
            lemma_rabin_result(chunks@, data@, spans, rabin_spans(poly, mask, data@, chunk_start as int, min_size, max_size), min_size, max_size);
        }
        chunks
    }

    /// The rolling hash of the chunk that starts at `chunk_start`, extended by `data[i]`.
    fn next_hash(&self, data: &[u8], chunk_start: usize, i: usize, hash: u64) -> (r: u64)
        requires
            chunk_start <= i < data@.len(),
            hash == seg_hash(self.core@.0, data@, chunk_start as int, (i - chunk_start) as nat),
        ensures
            r == seg_hash(self.core@.0, data@, chunk_start as int, (i - chunk_start + 1) as nat),
    {
        let byte = data[i];
        if i - chunk_start + 1 <= WINDOW_SIZE {
            self.core.update_hash(hash, byte)
        } else {
            self.core.slide_hash(hash, data[i - WINDOW_SIZE], byte)
        }
    }
}

/// Once the chunking loop has consumed all the data, the chunks hold exactly the Rabin spans,
/// tile the data, and respect the size bounds.
proof fn lemma_rabin_result(chunks: Seq<ChunkData>, data: Seq<u8>, spans: Seq<(int, int)>, tail: Seq<(int, int)>, min_size: usize, max_size: usize)
    requires
        spans_cover(spans, 0, data.len() as int),
        forall|i: int| 0 <= i < spans.len() ==> #[trigger] spans[i].1 <= max_bound(max_size),
        min_size <= max_size ==> forall|i: int| 0 <= i < spans.len() - 1 ==> #[trigger] spans[i].1 >= min_size,
        tail.len() == 0,
        chunks.len() <= spans.len(),
        spans.subrange(chunks.len() as int, spans.len() as int) == tail,
        chunks_match(chunks, data, spans.subrange(0, chunks.len() as int)),
    ensures
        chunks_match(chunks, data, spans),
        is_tiling(chunks, data),
        all_at_most(chunks, max_bound(max_size)),
        min_size <= max_size ==> all_but_last_at_least(chunks, min_size as int),
{
    assert(chunks.len() == spans.len());
    assert(spans.subrange(0, chunks.len() as int) =~= spans);
    lemma_match_cover_tiles(chunks, data, spans);
    assert forall|j: int| 0 <= j < chunks.len() implies #[trigger] chunks[j].data@.len() <= max_bound(max_size) by {
        assert(spans[j].1 <= max_bound(max_size));
        assert(chunks[j].data@.len() == spans[j].1) by {
            lemma_span_inside(spans, 0, data.len() as int, j);
        }
    }
    if min_size <= max_size {
        assert forall|j: int| 0 <= j < chunks.len() - 1 implies #[trigger] chunks[j].data@.len() >= min_size by {
            assert(spans[j].1 >= min_size);
            lemma_span_inside(spans, 0, data.len() as int, j);
        }
    }
}

/// Largest size a chunk can have under a maximum (one byte when the maximum is zero).
pub open spec fn max_bound(max_size: usize) -> int {
    if max_size >= 1 { max_size as int } else { 1 }
}

/// Copies `data[start..end]` into a new vector.
pub fn slice_to_vec(data: &[u8], start: usize, end: usize) -> (r: Vec<u8>)
    requires
        start <= end <= data@.len(),
    ensures
        r@ == data@.subrange(start as int, end as int),
{
    let mut out: Vec<u8> = Vec::new();
    let mut i: usize = start;
    while i < end
        invariant
            start <= i <= end,
            end <= data@.len(),
            out@ == data@.subrange(start as int, i as int),
        decreases end - i,
    {
        out.push(data[i]);
        i = i + 1;
        assert(out@ =~= data@.subrange(start as int, i as int));
    }
    out
}


/// Chunks handed out one after another from `start` on, each cut by the Rabin rule from a
/// window of buffered bytes: each window starts the rest of the data, holds at least the
/// maximum size or all the rest, and its chunk is its first Rabin chunk.
pub open spec fn cut_from_windows(
    poly: u64,
    mask: u64,
    data: Seq<u8>,
    start: int,
    chunks: Seq<Seq<u8>>,
    windows: Seq<Seq<u8>>,
    min_size: usize,
    max_size: usize,
) -> bool
    decreases chunks.len(),
{
    if chunks.len() == 0 {
        true
    } else if windows.len() == 0 || start < 0 || start > data.len() {
        false
    } else {
        let rest = data.skip(start);
        let w = windows[0];
        let c = chunks[0];
        &&& w.is_prefix_of(rest)
        &&& (w.len() >= max_size || w.len() == rest.len())
        &&& w.len() > 0
        &&& c.len() == rabin_cut(poly, mask, w, 0, min_size, max_size)
        &&& c == w.take(c.len() as int)
        &&& cut_from_windows(poly, mask, data, start + c.len(), chunks.drop_first(), windows.drop_first(), min_size, max_size)
    }
}

/// The spans of chunks laid one after another from `start`.
pub open spec fn chunk_spans_from(chunks: Seq<Seq<u8>>, start: int) -> Seq<(int, int)>
    decreases chunks.len(),
{
    if chunks.len() == 0 {
        Seq::empty()
    } else {
        seq![(start, chunks[0].len() as int)] + chunk_spans_from(chunks.drop_first(), start + chunks[0].len())
    }
}

/// Streaming Rabin chunking agrees with chunking the whole input: chunks cut from windows
/// that each reach the maximum size or the end of the data are the first chunks that
/// `RabinChunker::chunk` cuts, at the same offsets, with the same bytes.
pub proof fn law_streamed_rabin_chunks(
    poly: u64,
    mask: u64,
    data: Seq<u8>,
    start: int,
    chunks: Seq<Seq<u8>>,
    windows: Seq<Seq<u8>>,
    min_size: usize,
    max_size: usize,
)
    requires
        0 <= start <= data.len(),
        cut_from_windows(poly, mask, data, start, chunks, windows, min_size, max_size),
    ensures
        chunks.len() <= rabin_spans(poly, mask, data, start, min_size, max_size).len(),
        chunk_spans_from(chunks, start) == rabin_spans(poly, mask, data, start, min_size, max_size).take(chunks.len() as int),
        forall|k: int| 0 <= k < chunks.len() ==> #[trigger] chunks[k] == data.subrange(
            chunk_spans_from(chunks, start)[k].0,
            chunk_spans_from(chunks, start)[k].0 + chunks[k].len(),
        ),
    decreases chunks.len(),
{
    let spans = rabin_spans(poly, mask, data, start, min_size, max_size);
    if chunks.len() == 0 {
        assert(spans.take(0) =~= Seq::<(int, int)>::empty());
    } else {
        let rest = data.skip(start);
        let w = windows[0];
        let c = chunks[0];
        law_window_cut_is_cut_of_rest(poly, mask, w, rest, min_size, max_size);
        lemma_cut_search_bounds(poly, mask, w, 0, min_size, max_size, 1);
        law_cut_is_boundary_of_rest(poly, mask, data, start, min_size, max_size);
        assert(start < data.len());
        lemma_cut_search_bounds(poly, mask, data, start, min_size, max_size, 1);
        let n = c.len() as int;
        assert(n == cut_search(poly, mask, data, start, min_size, max_size, 1));
        law_streamed_rabin_chunks(poly, mask, data, start + n, chunks.drop_first(), windows.drop_first(), min_size, max_size);
        let tail = rabin_spans(poly, mask, data, start + n, min_size, max_size);
        assert(spans == seq![(start, n)] + tail);
        assert(spans.take(chunks.len() as int) =~= seq![(start, n)] + tail.take(chunks.len() - 1));
        assert(c =~= data.subrange(start, start + n)) by {
            assert forall|i: int| 0 <= i < n implies c[i] == data[start + i] by {
                assert(c[i] == w[i]);
                assert(w[i] == rest[i]);
            }
        }
        let cs = chunk_spans_from(chunks, start);
        assert forall|k: int| 0 <= k < chunks.len() implies #[trigger] chunks[k] == data.subrange(cs[k].0, cs[k].0 + chunks[k].len()) by {
            if k > 0 {
                assert(chunks[k] == chunks.drop_first()[k - 1]);
                assert(cs[k] == chunk_spans_from(chunks.drop_first(), start + n)[k - 1]);
            }
        }
    }
}

/// Each Rabin span lies within the data and is the cut that starts at its offset.
proof fn lemma_rabin_spans_are_cuts(poly: u64, mask: u64, data: Seq<u8>, start: int, min_size: usize, max_size: usize)
    requires
        0 <= start <= data.len(),
    ensures
        forall|k: int| 0 <= k < rabin_spans(poly, mask, data, start, min_size, max_size).len() ==> {
            &&& 0 <= #[trigger] rabin_spans(poly, mask, data, start, min_size, max_size)[k].0
            &&& rabin_spans(poly, mask, data, start, min_size, max_size)[k].0 + rabin_spans(poly, mask, data, start, min_size, max_size)[k].1 <= data.len()
            &&& rabin_spans(poly, mask, data, start, min_size, max_size)[k].1 == rabin_cut(
                poly,
                mask,
                data,
                rabin_spans(poly, mask, data, start, min_size, max_size)[k].0,
                min_size,
                max_size,
            )
        },
    decreases data.len() - start,
{
    if start < data.len() {
        let n = cut_search(poly, mask, data, start, min_size, max_size, 1);
        lemma_cut_search_bounds(poly, mask, data, start, min_size, max_size, 1);
        lemma_rabin_spans_are_cuts(poly, mask, data, start + n, min_size, max_size);
        let rest = rabin_spans(poly, mask, data, start + n, min_size, max_size);
        let s = rabin_spans(poly, mask, data, start, min_size, max_size);
        assert(s == seq![(start, n as int)] + rest);
        assert forall|k: int| 0 <= k < s.len() implies {
            &&& 0 <= #[trigger] s[k].0
            &&& s[k].0 + s[k].1 <= data.len()
            &&& s[k].1 == rabin_cut(poly, mask, data, s[k].0, min_size, max_size)
        } by {
            if k > 0 {
                assert(s[k] == rest[k - 1]);
            }
        }
    }
}

/// Each chunk that Rabin chunking cuts is as long as the first chunk of the input that remains
/// from the chunk's offset: the boundary `find_boundary` finds there.
pub proof fn law_each_chunk_is_first_cut_of_rest(
    poly: u64,
    mask: u64,
    data: Seq<u8>,
    chunks: Seq<ChunkData>,
    min_size: usize,
    max_size: usize,
)
    requires
        chunks_match(chunks, data, rabin_spans(poly, mask, data, 0, min_size, max_size)),
    ensures
        forall|k: int| 0 <= k < chunks.len() ==> #[trigger] chunks[k].data@.len() == rabin_cut(
            poly,
            mask,
            data.skip(chunks[k].offset as int),
            0,
            min_size,
            max_size,
        ),
{
    let spans = rabin_spans(poly, mask, data, 0, min_size, max_size);
    lemma_rabin_spans_are_cuts(poly, mask, data, 0, min_size, max_size);
    assert forall|k: int| 0 <= k < chunks.len() implies #[trigger] chunks[k].data@.len() == rabin_cut(
        poly,
        mask,
        data.skip(chunks[k].offset as int),
        0,
        min_size,
        max_size,
    ) by {
        assert(chunks[k].offset == spans[k].0);
        assert(0 <= spans[k].0 && spans[k].0 + spans[k].1 <= data.len());
        law_cut_is_boundary_of_rest(poly, mask, data, spans[k].0, min_size, max_size);
    }
}

} // verus!
