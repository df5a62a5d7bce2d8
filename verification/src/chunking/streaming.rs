//! Streaming chunkers: they read their input in pieces and keep at most a bounded window
//! of it in memory.

use vstd::prelude::*;

use super::config::ChunkingConfig;
use super::fastcdc::{cut_spans, fastcdc_cuts, fastcdc_sizes_ok};
use super::rabin::slice_to_vec;
use super::rabin_core::{IPFS_POLYNOMIAL, RabinCore, WINDOW_SIZE, mask_spec, rabin_cut};
use super::spans::spans_cover;
use super::types::{ChunkData, StreamingChunkError};

verus! {

/// Reads up to `n` bytes, by `std::io::Read::take(n)` followed by `read_to_end`, which keeps
/// reading (and retries reads that were interrupted) until `n` bytes came, the reader reported
/// the end of its data, or a read failed. As `read_to_end` documents, the bytes read before a
/// failure stay in its buffer; they are returned beside the error.
/// Trusted: at most `n` bytes came back. What they are, and whether fewer than `n` came or a
/// read failed, depends on the reader and is not stated.
#[verifier::external_body]
fn read_up_to<R: std::io::Read>(reader: &mut R, n: usize) -> (r: (Vec<u8>, Option<std::io::Error>))
    ensures
        r.0@.len() <= n,
{
    let mut out: Vec<u8> = Vec::new();
    let result = std::io::Read::read_to_end(&mut std::io::Read::take(reader.by_ref(), n as u64), &mut out);
    (out, result.err())
}

/// Buffer of a streaming chunker: a sliding window over the input stream.
pub struct StreamBuffer<R> {
    reader: R,
    buffer: Vec<u8>,
    len: usize,
    start: usize,
    offset: u64,
    eof: bool,
    read_size: usize,
}

impl<R: std::io::Read> StreamBuffer<R> {
    /// Internal consistency: the buffered bytes lie within the buffer.
    pub closed spec fn wf(&self) -> bool {
        &&& self.start + self.len <= self.buffer@.len()
        &&& self.buffer@.len() <= usize::MAX
    }

    /// The bytes currently buffered (read but not consumed).
    pub closed spec fn buffered(&self) -> Seq<u8> {
        self.buffer@.subrange(self.start as int, self.start + self.len)
    }

    /// Position of the first buffered byte in the input stream.
    pub closed spec fn spec_offset(&self) -> u64 {
        self.offset
    }

    /// Whether the reader has reported the end of its data.
    pub closed spec fn spec_eof(&self) -> bool {
        self.eof
    }

    /// Size of the buffer.
    pub closed spec fn capacity(&self) -> nat {
        self.buffer@.len()
    }

    /// Largest single read.
    pub closed spec fn read_size(&self) -> nat {
        self.read_size as nat
    }

    /// Free space after the buffered bytes.
    pub closed spec fn room(&self) -> int {
        self.buffer@.len() - self.start - self.len
    }

    /// A buffer of `capacity` bytes over the reader; single reads are at most a quarter of it.
    pub fn new(reader: R, capacity: usize) -> (r: Self)
        ensures
            r.wf(),
            r.buffered() == Seq::<u8>::empty(),
            r.spec_offset() == 0,
            !r.spec_eof(),
            r.capacity() == capacity,
            r.read_size() == capacity / 4,
    {
        let mut buffer: Vec<u8> = Vec::new();
        let mut i: usize = 0;
        while i < capacity
            invariant
                i <= capacity,
                buffer@.len() == i,
            decreases capacity - i,
        {
            buffer.push(0u8);
            i = i + 1;
        }
        let r = StreamBuffer { reader, buffer, len: 0, start: 0, offset: 0, eof: false, read_size: capacity / 4 };
        assert(r.buffered() =~= Seq::<u8>::empty());
        r
    }

    /// Position of the first buffered byte in the input stream.
    pub fn offset(&self) -> (r: u64)
        ensures
            r == self.spec_offset(),
    {
        self.offset
    }

    /// Whether all input has been read and consumed.
    pub fn is_exhausted(&self) -> (r: bool)
        requires
            self.wf(),
        ensures
            r == (self.spec_eof() && self.buffered().len() == 0),
    {
        self.eof && self.len == 0
    }

    /// The buffered bytes.
    pub fn data(&self) -> (r: &[u8])
        requires
            self.wf(),
        ensures
            r@ == self.buffered(),
    {
        vstd::slice::slice_subrange(self.buffer.as_slice(), self.start, self.start + self.len)
    }

    /// Moves the buffered bytes to the front of the buffer.
    fn compact(&mut self)
        requires
            old(self).wf(),
        ensures
            final(self).wf(),
            final(self).start == 0,
            final(self).buffered() == old(self).buffered(),
            final(self).len == old(self).len,
            final(self).spec_offset() == old(self).spec_offset(),
            final(self).spec_eof() == old(self).spec_eof(),
            final(self).capacity() == old(self).capacity(),
            final(self).read_size() == old(self).read_size(),
    {
        let ghost data = self.buffered();
        let mut i: usize = 0;
        while i < self.len
            invariant
                self.start + self.len <= self.buffer@.len(),
                self.buffer@.len() <= usize::MAX,
                self.buffer@.len() == old(self).buffer@.len(),
                self.start == old(self).start,
                self.len == old(self).len,
                self.offset == old(self).offset,
                self.eof == old(self).eof,
                self.read_size == old(self).read_size,
                data == old(self).buffer@.subrange(old(self).start as int, old(self).start + old(self).len),
                i <= self.len,
                forall|j: int| 0 <= j < i ==> #[trigger] self.buffer@[j] == data[j],
                forall|j: int| i <= j < self.len ==> #[trigger] self.buffer@[self.start + j] == data[j],
            decreases self.len - i,
        {
            let b = self.buffer[self.start + i];
            self.buffer.set(i, b);
            i = i + 1;
        }
        self.start = 0;
        assert(self.buffered() =~= data);
    }

    /// How many bytes the next read asks for: the free room after the buffered bytes, at most
    /// the read size.
    pub fn read_request(&self) -> (r: usize)
        requires
            self.wf(),
        ensures
            r as int == size_min(self.room(), self.read_size() as int),
    {
        let available = self.buffer.len() - self.start - self.len;
        if available < self.read_size {
            available
        } else {
            self.read_size
        }
    }

    /// Puts bytes just read after the buffered ones.
    pub fn append(&mut self, bytes: &[u8])
        requires
            old(self).wf(),
            bytes@.len() <= old(self).room(),
        ensures
            final(self).wf(),
            final(self).buffered() == old(self).buffered() + bytes@,
            final(self).spec_offset() == old(self).spec_offset(),
            final(self).spec_eof() == old(self).spec_eof(),
            final(self).capacity() == old(self).capacity(),
            final(self).read_size() == old(self).read_size(),
            final(self).room() == old(self).room() - bytes@.len(),
    {
        let ghost before = self.buffered();
        let read_start = self.start + self.len;
        let mut j: usize = 0;
        while j < bytes.len()
            invariant
                self.wf(),
                self.start == old(self).start,
                self.len == old(self).len,
                self.offset == old(self).offset,
                self.eof == old(self).eof,
                self.read_size == old(self).read_size,
                read_start == self.start + self.len,
                read_start + bytes@.len() <= self.buffer@.len(),
                self.buffer@.len() == old(self).buffer@.len(),
                before == old(self).buffered(),
                j <= bytes@.len(),
                forall|t: int| self.start <= t < read_start ==> #[trigger] self.buffer@[t] == before[t - self.start],
                forall|t: int| 0 <= t < j ==> #[trigger] self.buffer@[read_start + t] == bytes@[t],
            decreases bytes@.len() - j,
        {
            self.buffer.set(read_start + j, bytes[j]);
            j = j + 1;
        }
        let old_len = self.len;
        self.len = self.len + bytes.len();
        assert forall|k: int| 0 <= k < before.len() + bytes@.len() implies #[trigger] self.buffered()[k] == (
        before + bytes@)[k] by {
            if k < old_len {
                assert(self.buffer@[self.start + k] == before[k]);
            } else {
                assert(self.buffer@[read_start + (k - old_len)] == bytes@[k - old_len]);
            }
        }
        assert(self.buffered() =~= before + bytes@);
    }

    /// Reads until at least `min_bytes` are buffered, the reader reports the end of its data,
    /// or no more can be read into the buffer. Returns the number of buffered bytes. Each read
    /// asks for `read_request` bytes, and what it delivers is appended to the buffered bytes,
    /// also when the read then fails.
    pub fn fill(&mut self, min_bytes: usize) -> (r: Result<usize, StreamingChunkError>)
        requires
            old(self).wf(),
        ensures
            final(self).wf(),
            final(self).spec_offset() == old(self).spec_offset(),
            final(self).capacity() == old(self).capacity(),
            final(self).read_size() == old(self).read_size(),
            old(self).buffered().is_prefix_of(final(self).buffered()),
            old(self).spec_eof() ==> final(self).spec_eof() && final(self).buffered() == old(self).buffered(),
            r matches Ok(n) ==> n == final(self).buffered().len() && (n >= min_bytes
                || final(self).spec_eof() || final(self).read_size() == 0 || final(self).room() == 0),
            old(self).spec_eof() || old(self).buffered().len() >= min_bytes || old(self).read_size() == 0
                || old(self).buffered().len() == old(self).capacity() ==> (r matches Ok(n) && n == old(self).buffered().len())
                && final(self).buffered() == old(self).buffered() && final(self).spec_eof() == old(self).spec_eof(),
    {
        if self.start > 0 && self.read_size > self.buffer.len() - self.start - self.len {
            self.compact();
        }
        let ghost initial = self.buffered();
        while !self.eof && self.len < min_bytes
            invariant
                self.wf(),
                self.offset == old(self).offset,
                self.buffer@.len() == old(self).buffer@.len(),
                self.read_size == old(self).read_size,
                initial == old(self).buffered(),
                initial.is_prefix_of(self.buffered()),
                old(self).eof ==> self.eof && self.buffered() == initial,
                old(self).wf(),
                old(self).eof || old(self).len >= min_bytes || old(self).read_size == 0 || old(self).len == old(self).buffer@.len()
                    ==> self.buffered() == initial && self.eof == old(self).eof,
            ensures
                self.wf(),
                self.offset == old(self).offset,
                self.buffer@.len() == old(self).buffer@.len(),
                self.read_size == old(self).read_size,
                initial.is_prefix_of(self.buffered()),
                old(self).eof ==> self.eof && self.buffered() == initial,
                self.len >= min_bytes || self.eof || self.read_size == 0 || self.room() == 0,
                old(self).eof || old(self).len >= min_bytes || old(self).read_size == 0 || old(self).len == old(self).buffer@.len()
                    ==> self.buffered() == initial && self.eof == old(self).eof,
            decreases self.buffer@.len() - self.start - self.len + (if self.eof { 0int } else { 1int }),
        {
            let to_read = self.read_request();
            if to_read == 0 {
                break;
            }
            let (bytes, failure) = read_up_to(&mut self.reader, to_read);
            if bytes.len() > 0 {
                self.append(bytes.as_slice());
            }
            match failure {
                Some(e) => {
                    return Err(StreamingChunkError::Io(e));
                },
                None => {
                    if bytes.len() == 0 {
                        self.eof = true;
                    }
                },
            }
        }
        Ok(self.len)
    }

    /// Removes and returns the first `n` buffered bytes (the caller panics for more).
    pub fn consume(&mut self, n: usize) -> (r: Vec<u8>)
        requires
            old(self).wf(),
            n <= old(self).buffered().len(),
        ensures
            final(self).wf(),
            r@ == old(self).buffered().subrange(0, n as int),
            final(self).buffered() == old(self).buffered().subrange(n as int, old(self).buffered().len() as int),
            final(self).spec_offset() == old(self).spec_offset().wrapping_add(n as u64),
            final(self).spec_eof() == old(self).spec_eof(),
            final(self).capacity() == old(self).capacity(),
            final(self).read_size() == old(self).read_size(),
            final(self).room() == old(self).room(),
    {
        let data = slice_to_vec(self.buffer.as_slice(), self.start, self.start + n);
        self.start = self.start + n;
        self.len = self.len - n;
        self.offset = self.offset.wrapping_add(n as u64);
        assert(data@ =~= old(self).buffered().subrange(0, n as int));
        assert(self.buffered() =~= old(self).buffered().subrange(n as int, old(self).buffered().len() as int));
        data
    }
}

/// First chunk length that FastCDC finds in the data (0 for no data).
pub open spec fn fastcdc_first_cut(data: Seq<u8>, config: ChunkingConfig) -> int {
    if data.len() == 0 {
        0
    } else {
        let cuts = fastcdc_cuts(data, config.min_size as u32, config.target_size as u32, config.max_size as u32);
        if cuts.len() > 0 { cuts[0].1 as int } else { data.len() as int }
    }
}

/// The smaller of two sizes.
pub open spec fn size_min(a: int, b: int) -> int {
    if a <= b { a } else { b }
}

/// Streaming iterator for fixed-size chunking.
pub struct FixedStreamingIter<R> {
    buffer: StreamBuffer<R>,
    chunk_size: usize,
}

impl<R: std::io::Read> FixedStreamingIter<R> {
    /// Internal consistency.
    pub closed spec fn wf(&self) -> bool {
        &&& self.buffer.wf()
        &&& self.buffer.capacity() == 2 * self.chunk_size
    }

    /// Bytes read but not yet handed out.
    pub closed spec fn pending(&self) -> Seq<u8> {
        self.buffer.buffered()
    }

    /// Stream position of the next chunk.
    pub closed spec fn position(&self) -> u64 {
        self.buffer.spec_offset()
    }

    /// Size of the chunks.
    pub closed spec fn spec_chunk_size(&self) -> usize {
        self.chunk_size
    }

    /// A fixed-size streaming iterator with chunks of `config.target_size` bytes and a buffer
    /// of twice that.
    pub fn new(reader: R, config: &ChunkingConfig) -> (r: Self)
        requires
            config.target_size <= usize::MAX / 2,
        ensures
            r.wf(),
            r.pending() == Seq::<u8>::empty(),
            r.position() == 0,
            r.spec_chunk_size() == config.target_size,
    {
        let capacity = config.target_size * 2;
        FixedStreamingIter { buffer: StreamBuffer::new(reader, capacity), chunk_size: config.target_size }
    }

    /// The next chunk: the next `chunk_size` bytes of the stream (fewer at its end), or `None`
    /// once nothing more can be read.
    pub fn next(&mut self) -> (r: Option<Result<ChunkData, StreamingChunkError>>)
        requires
            old(self).wf(),
        ensures
            final(self).wf(),
            final(self).spec_chunk_size() == old(self).spec_chunk_size(),
            r matches Some(Ok(c)) ==> {
                &&& c.offset == old(self).position()
                &&& c.data@.len() > 0
                &&& old(self).pending().is_prefix_of(c.data@ + final(self).pending())
                &&& c.data@.len() == size_min((c.data@ + final(self).pending()).len() as int, old(self).spec_chunk_size() as int)
                &&& final(self).position() == old(self).position().wrapping_add(c.data@.len() as u64)
            },
            r is None ==> final(self).pending().len() == 0 && final(self).position() == old(self).position(),
    {
        if self.buffer.is_exhausted() {
            return None;
        }
        match self.buffer.fill(self.chunk_size) {
            Ok(available) => {
                if available == 0 {
                    None
                } else {
                    let offset = self.buffer.offset();
                    let size = if available < self.chunk_size { available } else { self.chunk_size };
                    let ghost b = self.buffer.buffered();
                    let data = self.buffer.consume(size);
                    proof {
                        assert(data@ + self.buffer.buffered() =~= b);
                    }
                    Some(Ok(ChunkData::new(data, offset)))
                }
            },
            Err(e) => Some(Err(e)),
        }
    }
}

/// Streaming iterator for FastCDC chunking (FastCDC works on a slice, so it runs over the
/// buffered window of up to twice the maximum chunk size).
pub struct FastCdcStreamingIter<R> {
    buffer: StreamBuffer<R>,
    config: ChunkingConfig,
}

impl<R: std::io::Read> FastCdcStreamingIter<R> {
    /// Internal consistency.
    pub closed spec fn wf(&self) -> bool {
        self.buffer.wf()
    }

    /// Bytes read but not yet handed out.
    pub closed spec fn pending(&self) -> Seq<u8> {
        self.buffer.buffered()
    }

    /// Stream position of the next chunk.
    pub closed spec fn position(&self) -> u64 {
        self.buffer.spec_offset()
    }

    /// The configuration.
    pub closed spec fn spec_config(&self) -> ChunkingConfig {
        self.config
    }

    /// Whether the reader has reported the end of its data.
    pub closed spec fn ended(&self) -> bool {
        self.buffer.spec_eof()
    }

    /// Whether the buffer has no room left for another read.
    pub closed spec fn full(&self) -> bool {
        self.buffer.room() == 0 || self.buffer.read_size() == 0
    }

    /// A FastCDC streaming iterator with a buffer of twice the maximum chunk size.
    pub fn new(reader: R, config: ChunkingConfig) -> (r: Self)
        requires
            config.max_size <= usize::MAX / 2,
        ensures
            r.wf(),
            r.pending() == Seq::<u8>::empty(),
            r.position() == 0,
            r.spec_config() == config,
    {
        let capacity = config.max_size * 2;
        FastCdcStreamingIter { buffer: StreamBuffer::new(reader, capacity), config }
    }

    /// Length of the first FastCDC chunk of `data`.
    fn find_boundary(&self, data: &[u8]) -> (r: usize)
        requires
            fastcdc_sizes_ok(self.config.min_size, self.config.target_size, self.config.max_size),
        ensures
            r == fastcdc_first_cut(data@, self.config),
            data@.len() > 0 ==> 0 < r <= data@.len(),
    {
        if data.len() == 0 {
            return 0;
        }
        let cuts = super::fastcdc::fastcdc_cut_list(
            data,
            self.config.min_size as u32,
            self.config.target_size as u32,
            self.config.max_size as u32,
        );
        if cuts.len() > 0 {
            proof {
                super::spans::lemma_span_inside(cut_spans(cuts@), 0, data@.len() as int, 0);
            }
            cuts[0].1
        } else {
            data.len()
        }
    }

    /// The next chunk: the first FastCDC chunk of the buffered window, or `None` once nothing
    /// more can be read.
    pub fn next(&mut self) -> (r: Option<Result<ChunkData, StreamingChunkError>>)
        requires
            old(self).wf(),
            fastcdc_sizes_ok(old(self).spec_config().min_size, old(self).spec_config().target_size, old(self).spec_config().max_size),
        ensures
            final(self).wf(),
            final(self).spec_config() == old(self).spec_config(),
            r matches Some(Ok(c)) ==> {
                &&& c.offset == old(self).position()
                &&& c.data@.len() > 0
                &&& old(self).pending().is_prefix_of(c.data@ + final(self).pending())
                &&& c.data@.len() == fastcdc_first_cut(c.data@ + final(self).pending(), old(self).spec_config())
                &&& (c.data@ + final(self).pending()).len() >= old(self).spec_config().max_size || final(self).ended()
                    || final(self).full()
                &&& final(self).position() == old(self).position().wrapping_add(c.data@.len() as u64)
            },
            r is None ==> final(self).pending().len() == 0 && final(self).position() == old(self).position(),
    {
        if self.buffer.is_exhausted() {
            return None;
        }
        match self.buffer.fill(self.config.max_size) {
            Ok(available) => {
                if available == 0 {
                    return None;
                }
            },
            Err(e) => {
                return Some(Err(e));
            },
        }
        let offset = self.buffer.offset();
        let chunk_size = self.find_boundary(self.buffer.data());
        let ghost b = self.buffer.buffered();
        let data = self.buffer.consume(chunk_size);
        proof {
            assert(data@ + self.buffer.buffered() =~= b);
        }
        Some(Ok(ChunkData::new(data, offset)))
    }
}

/// Streaming iterator for Rabin fingerprint chunking (the same hash and boundary rule as
/// `RabinChunker`).
pub struct RabinStreamingIter<R> {
    buffer: StreamBuffer<R>,
    config: ChunkingConfig,
    core: RabinCore,
}

impl<R: std::io::Read> RabinStreamingIter<R> {
    /// Internal consistency.
    pub closed spec fn wf(&self) -> bool {
        self.buffer.wf()
    }

    /// Bytes read but not yet handed out.
    pub closed spec fn pending(&self) -> Seq<u8> {
        self.buffer.buffered()
    }

    /// Stream position of the next chunk.
    pub closed spec fn position(&self) -> u64 {
        self.buffer.spec_offset()
    }

    /// The configuration.
    pub closed spec fn spec_config(&self) -> ChunkingConfig {
        self.config
    }

    /// Whether the reader has reported the end of its data.
    pub closed spec fn ended(&self) -> bool {
        self.buffer.spec_eof()
    }

    /// Whether the buffer has no room left for another read.
    pub closed spec fn full(&self) -> bool {
        self.buffer.room() == 0 || self.buffer.read_size() == 0
    }

    /// The polynomial and boundary mask.
    pub closed spec fn spec_core(&self) -> (u64, u64) {
        self.core@
    }

    /// A Rabin streaming iterator with the IPFS polynomial and a buffer of the maximum chunk
    /// size plus the window plus 1 KB.
    pub fn new(reader: R, config: ChunkingConfig) -> (r: Self)
        requires
            config.max_size <= usize::MAX - 1088,
        ensures
            r.wf(),
            r.pending() == Seq::<u8>::empty(),
            r.position() == 0,
            r.spec_config() == config,
            r.spec_core() == (IPFS_POLYNOMIAL, mask_spec(config.target_size as nat) as u64),
    {
        let core = RabinCore::new(&config);
        Self::with_core(reader, config, core)
    }

    /// A Rabin streaming iterator that uses an existing core.
    pub fn with_core(reader: R, config: ChunkingConfig, core: RabinCore) -> (r: Self)
        requires
            config.max_size <= usize::MAX - 1088,
        ensures
            r.wf(),
            r.pending() == Seq::<u8>::empty(),
            r.position() == 0,
            r.spec_config() == config,
            r.spec_core() == core@,
    {
        let capacity = config.max_size + WINDOW_SIZE + 1024;
        RabinStreamingIter { buffer: StreamBuffer::new(reader, capacity), config, core }
    }

    /// Length of the first Rabin chunk of `data` under this iterator's core and size limits.
    fn find_boundary(&self, data: &[u8]) -> (r: usize)
        ensures
            r == rabin_cut(self.spec_core().0, self.spec_core().1, data@, 0, self.spec_config().min_size,
                self.spec_config().max_size),
    {
        self.core.find_boundary(data, self.config.min_size, self.config.max_size)
    }

    /// The next chunk: the first Rabin chunk of the buffered window, or `None` once nothing
    /// more can be read.
    pub fn next(&mut self) -> (r: Option<Result<ChunkData, StreamingChunkError>>)
        requires
            old(self).wf(),
        ensures
            final(self).wf(),
            final(self).spec_config() == old(self).spec_config(),
            final(self).spec_core() == old(self).spec_core(),
            r matches Some(Ok(c)) ==> {
                &&& c.offset == old(self).position()
                &&& c.data@.len() > 0
                &&& old(self).pending().is_prefix_of(c.data@ + final(self).pending())
                &&& c.data@.len() == rabin_cut(old(self).spec_core().0, old(self).spec_core().1,
                    c.data@ + final(self).pending(), 0, old(self).spec_config().min_size, old(self).spec_config().max_size)
                &&& (c.data@ + final(self).pending()).len() >= old(self).spec_config().max_size || final(self).ended()
                    || final(self).full()
                &&& final(self).position() == old(self).position().wrapping_add(c.data@.len() as u64)
            },
            r is None ==> final(self).pending().len() == 0 && final(self).position() == old(self).position(),
    {
        if self.buffer.is_exhausted() {
            return None;
        }
        match self.buffer.fill(self.config.max_size) {
            Ok(available) => {
                if available == 0 {
                    return None;
                }
            },
            Err(e) => {
                return Some(Err(e));
            },
        }
        let offset = self.buffer.offset();
        let chunk_size = self.find_boundary(self.buffer.data());
        let ghost b = self.buffer.buffered();
        proof {
            super::rabin_core::lemma_cut_search_bounds(self.core@.0, self.core@.1, b, 0, self.config.min_size, self.config.max_size, 1);
        }
        let data = self.buffer.consume(chunk_size);
        proof {
            assert(data@ + self.buffer.buffered() =~= b);
        }
        Some(Ok(ChunkData::new(data, offset)))
    }
}

/// A streaming Rabin iterator made by `new` for a configuration finds, in any window, the
/// boundary that the core `RabinCore::new` makes for that configuration finds: both use the
/// IPFS polynomial and the mask of the target size.
pub proof fn law_streaming_boundary_is_core_boundary<R: std::io::Read>(
    it: &RabinStreamingIter<R>,
    core: RabinCore,
    config: ChunkingConfig,
    window: Seq<u8>,
)
    requires
        it.spec_config() == config,
        it.spec_core() == (IPFS_POLYNOMIAL, mask_spec(config.target_size as nat) as u64),
        core@ == (IPFS_POLYNOMIAL, mask_spec(config.target_size as nat) as u64),
    ensures
        rabin_cut(it.spec_core().0, it.spec_core().1, window, 0, it.spec_config().min_size, it.spec_config().max_size)
            == rabin_cut(core@.0, core@.1, window, 0, config.min_size, config.max_size),
{
}

} // verus!
