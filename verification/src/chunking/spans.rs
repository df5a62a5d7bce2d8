//! Byte spans `(offset, length)` that cover an input, and chunks that hold them.

use vstd::prelude::*;

use super::types::{ChunkData, chunk_end, is_tiling};

verus! {

/// End (exclusive) of a span.
pub open spec fn span_end(s: (int, int)) -> int {
    s.0 + s.1
}

/// The spans cover `[start, end)` in order: contiguous, each non-empty.
pub open spec fn spans_cover(spans: Seq<(int, int)>, start: int, end: int) -> bool {
    &&& (spans.len() == 0 <==> start == end)
    &&& spans.len() > 0 ==> spans[0].0 == start && span_end(spans.last()) == end
    &&& forall|i: int| 0 <= i < spans.len() ==> #[trigger] spans[i].1 > 0
    &&& forall|i: int| 1 <= i < spans.len() ==> #[trigger] spans[i].0 == span_end(spans[i - 1])
}

/// Each chunk holds the bytes of `data` at the span of the same index.
pub open spec fn chunks_match(chunks: Seq<ChunkData>, data: Seq<u8>, spans: Seq<(int, int)>) -> bool {
    &&& chunks.len() == spans.len()
    &&& forall|i: int| 0 <= i < chunks.len() ==> {
        &&& #[trigger] chunks[i].offset == spans[i].0
        &&& chunks[i].data@ == data.subrange(spans[i].0, span_end(spans[i]))
    }
}

/// In covering spans, an earlier span ends no later than a later one starts.
pub proof fn lemma_spans_ordered(spans: Seq<(int, int)>, start: int, end: int, i: int, j: int)
    requires
        spans_cover(spans, start, end),
        0 <= i < j < spans.len(),
    ensures
        span_end(spans[i]) <= spans[j].0,
    decreases j - i,
{
    if j > i + 1 {
        lemma_spans_ordered(spans, start, end, i, j - 1);
        assert(spans[j - 1].1 > 0);
    }
    assert(spans[j].0 == span_end(spans[j - 1]));
}

/// Every covering span lies inside `[start, end)`.
pub proof fn lemma_span_inside(spans: Seq<(int, int)>, start: int, end: int, i: int)
    requires
        spans_cover(spans, start, end),
        0 <= i < spans.len(),
    ensures
        start <= spans[i].0,
        span_end(spans[i]) <= end,
{
    if i > 0 {
        lemma_spans_ordered(spans, start, end, 0, i);
        assert(spans[0].1 > 0);
    }
    if i < spans.len() - 1 {
        lemma_spans_ordered(spans, start, end, i, spans.len() - 1);
        assert(spans.last().1 > 0);
    }
}

/// Prepending a span to spans that cover the rest gives spans that cover the whole.
pub proof fn lemma_cover_prepend(first: (int, int), rest: Seq<(int, int)>, end: int)
    requires
        first.1 > 0,
        spans_cover(rest, span_end(first), end),
    ensures
        spans_cover(seq![first] + rest, first.0, end),
{
    let s = seq![first] + rest;
    assert(s[0] == first);
    assert forall|i: int| 1 <= i < s.len() implies #[trigger] s[i].0 == span_end(s[i - 1]) by {
        assert(s[i] == rest[i - 1]);
        if i >= 2 {
            assert(s[i - 1] == rest[i - 2]);
        }
    }
    assert forall|i: int| 0 <= i < s.len() implies #[trigger] s[i].1 > 0 by {
        if i >= 1 {
            assert(s[i] == rest[i - 1]);
        }
    }
    if rest.len() > 0 {
        assert(s.last() == rest.last());
        lemma_span_inside(rest, span_end(first), end, 0);
    } else {
        assert(s.last() == first);
    }
}

/// Stepping past the head of the remaining spans.
pub proof fn lemma_advance(spans: Seq<(int, int)>, k: int, head: (int, int), rest: Seq<(int, int)>)
    requires
        0 <= k <= spans.len(),
        spans.subrange(k, spans.len() as int) == seq![head] + rest,
    ensures
        k < spans.len(),
        spans[k] == head,
        spans.subrange(k + 1, spans.len() as int) == rest,
{
    let t = spans.subrange(k, spans.len() as int);
    assert(t.len() == rest.len() + 1);
    assert(t[0] == head);
    assert(spans.subrange(k + 1, spans.len() as int) =~= rest) by {
        assert forall|j: int| 0 <= j < rest.len() implies spans.subrange(k + 1, spans.len() as int)[j] == rest[j] by {
            assert(t[j + 1] == rest[j]);
        }
    }
}

/// Appending a chunk that holds the next span keeps chunks and spans matched.
pub proof fn lemma_match_push(chunks: Seq<ChunkData>, data: Seq<u8>, spans: Seq<(int, int)>, c: ChunkData)
    requires
        chunks.len() < spans.len(),
        chunks_match(chunks, data, spans.subrange(0, chunks.len() as int)),
        c.offset == spans[chunks.len() as int].0,
        c.data@ == data.subrange(spans[chunks.len() as int].0, span_end(spans[chunks.len() as int])),
    ensures
        chunks_match(chunks.push(c), data, spans.subrange(0, chunks.len() as int + 1)),
{
    let k = chunks.len() as int;
    let sp = spans.subrange(0, k + 1);
    let old_sp = spans.subrange(0, k);
    let cs = chunks.push(c);
    assert forall|j: int| 0 <= j < cs.len() implies {
        &&& #[trigger] cs[j].offset == sp[j].0
        &&& cs[j].data@ == data.subrange(sp[j].0, span_end(sp[j]))
    } by {
        if j < k {
            assert(cs[j] == chunks[j]);
            assert(sp[j] == old_sp[j]);
        } else {
            assert(cs[j] == c);
            assert(sp[j] == spans[k]);
        }
    }
}

/// Chunks that hold covering spans of the whole input tile it.
pub proof fn lemma_match_cover_tiles(chunks: Seq<ChunkData>, data: Seq<u8>, spans: Seq<(int, int)>)
    requires
        chunks_match(chunks, data, spans),
        spans_cover(spans, 0, data.len() as int),
    ensures
        is_tiling(chunks, data),
{
    assert forall|i: int| 0 <= i < chunks.len() implies {
        &&& #[trigger] chunks[i].data@.len() > 0
        &&& chunk_end(chunks[i]) <= data.len()
        &&& chunks[i].data@ == data.subrange(chunks[i].offset as int, chunk_end(chunks[i]))
    } by {
        lemma_span_inside(spans, 0, data.len() as int, i);
        assert(spans[i].1 > 0);
        assert(chunks[i].offset == spans[i].0);
    }
    assert forall|i: int| 1 <= i < chunks.len() implies #[trigger] chunks[i].offset == chunk_end(
        chunks[i - 1],
    ) by {
        assert(spans[i].0 == span_end(spans[i - 1]));
        assert(chunks[i].offset == spans[i].0);
        assert(chunks[i - 1].offset == spans[i - 1].0);
        lemma_span_inside(spans, 0, data.len() as int, i - 1);
    }
    if chunks.len() > 0 {
        assert(chunks[0].offset == spans[0].0);
        let k = chunks.len() - 1;
        assert(chunks[k].offset == spans[k].0);
        lemma_span_inside(spans, 0, data.len() as int, k);
    }
}

} // verus!
