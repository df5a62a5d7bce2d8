//! Handing out a chunker's chunks one at a time.

use vstd::prelude::*;

use super::fixed::fixed_spans;
use super::rabin::slice_to_vec;
use super::spans::{chunks_match, span_end};
use super::types::ChunkData;

verus! {

/// A chunk's bytes and where it starts.
pub open spec fn chunk_view(c: ChunkData) -> (Seq<u8>, u64) {
    (c.data@, c.offset)
}

/// The chunks (bytes and start) that spans cut out of `data`.
pub open spec fn span_chunks(data: Seq<u8>, spans: Seq<(int, int)>) -> Seq<(Seq<u8>, u64)> {
    spans.map_values(|s: (int, int)| (data.subrange(s.0, span_end(s)), s.0 as u64))
}

/// The views of a list of chunks.
pub open spec fn chunk_views(chunks: Seq<ChunkData>) -> Seq<(Seq<u8>, u64)> {
    chunks.map_values(|c: ChunkData| chunk_view(c))
}

/// Chunks that hold the bytes of their spans are the chunks the spans cut out.
pub proof fn lemma_match_views(chunks: Seq<ChunkData>, data: Seq<u8>, spans: Seq<(int, int)>)
    requires
        chunks_match(chunks, data, spans),
    ensures
        chunk_views(chunks) == span_chunks(data, spans),
{
    assert forall|i: int| 0 <= i < chunks.len() implies #[trigger] chunk_views(chunks)[i] == span_chunks(data, spans)[i] by {
        assert(chunks[i].offset == spans[i].0);
    }
    assert(chunk_views(chunks) =~= span_chunks(data, spans));
}

enum IterKind<'a> {
    /// Fixed-size chunks of `data`, cut on demand from `offset` on.
    Fixed { data: &'a [u8], size: usize, offset: usize },
    /// Chunks already cut, the next one last.
    Listed { rest: Vec<ChunkData> },
}

/// The chunks of an input, handed out one at a time by `next`.
pub struct ChunkIter<'a> {
    kind: IterKind<'a>,
}

impl<'a> ChunkIter<'a> {
    #[verifier::type_invariant]
    spec fn inv(self) -> bool {
        match self.kind {
            IterKind::Fixed { data, size, offset } => size > 0 && offset <= data@.len(),
            IterKind::Listed { .. } => true,
        }
    }

    /// The chunks still to come, in order.
    pub closed spec fn pending(&self) -> Seq<(Seq<u8>, u64)> {
        match self.kind {
            IterKind::Fixed { data, size, offset } => span_chunks(data@, fixed_spans(data@.len() as int, size as int, offset as int)),
            IterKind::Listed { rest } => Seq::new(rest@.len(), |i: int| chunk_view(rest@[rest@.len() - 1 - i])),
        }
    }

    /// Fixed-size chunks of `data`, cut as they are asked for.
    pub fn fixed(data: &'a [u8], size: usize) -> (r: Self)
        requires
            size > 0,
        ensures
            r.pending() == span_chunks(data@, fixed_spans(data@.len() as int, size as int, 0)),
    {
        ChunkIter { kind: IterKind::Fixed { data, size, offset: 0 } }
    }

    /// The given chunks, in order.
    pub fn listed(chunks: Vec<ChunkData>) -> (r: Self)
        ensures
            r.pending() == chunk_views(chunks@),
    {
        let ghost orig = chunks@;
        let n = chunks.len();
        let mut chunks = chunks;
        let mut rest: Vec<ChunkData> = Vec::new();
        while chunks.len() > 0
            invariant
                rest@.len() + chunks@.len() == n,
                n == orig.len(),
                chunks@ == orig.subrange(0, chunks@.len() as int),
                forall|i: int| 0 <= i < rest@.len() ==> #[trigger] rest@[i] == orig[n - 1 - i],
            decreases chunks@.len(),
        {
            let ghost before = chunks@;
            let c = chunks.pop().unwrap();
            assert(c == orig[chunks@.len() as int]);
            rest.push(c);
            assert(chunks@ =~= orig.subrange(0, chunks@.len() as int));
        }
        let r = ChunkIter { kind: IterKind::Listed { rest } };
        assert(r.pending() =~= chunk_views(orig));
        r
    }

    /// The next chunk, if any is left.
    pub fn next(&mut self) -> (r: Option<ChunkData>)
        ensures
            old(self).pending().len() == 0 ==> r is None && final(self).pending() == old(self).pending(),
            old(self).pending().len() > 0 ==> (r matches Some(c) && chunk_view(c) == old(self).pending()[0]
                && final(self).pending() == old(self).pending().drop_first()),
    {
        proof {
            use_type_invariant(&*self);
        }
        let ghost before = self.pending();
        let mut kind = IterKind::Listed { rest: Vec::new() };
        std::mem::swap(&mut kind, &mut self.kind);
        match kind {
            IterKind::Fixed { data, size, offset } => {
                let ghost len = data@.len() as int;
                if offset >= data.len() {
                    self.kind = IterKind::Fixed { data, size, offset };
                    assert(fixed_spans(len, size as int, offset as int) =~= Seq::<(int, int)>::empty());
                    return None;
                }
                let end = if size <= data.len() - offset { offset + size } else { data.len() };
                let ghost n = (end - offset) as int;
                let ghost rest = fixed_spans(len, size as int, end as int);
                assert(fixed_spans(len, size as int, offset as int) == seq![(offset as int, n)] + rest);
                let c = ChunkData::new(slice_to_vec(data, offset, end), offset as u64);
                self.kind = IterKind::Fixed { data, size, offset: end };
                proof {
                    let all = seq![(offset as int, n)] + rest;
                    assert(span_chunks(data@, all)[0] == chunk_view(c));
                    assert(span_chunks(data@, rest) =~= span_chunks(data@, all).drop_first());
                }
                Some(c)
            },
            IterKind::Listed { rest } => {
                let mut rest = rest;
                if rest.len() == 0 {
                    self.kind = IterKind::Listed { rest };
                    assert(self.pending() =~= before);
                    return None;
                }
                let c = rest.pop().unwrap();
                self.kind = IterKind::Listed { rest };
                assert(self.pending() =~= before.drop_first());
                Some(c)
            },
        }
    }
}

} // verus!
