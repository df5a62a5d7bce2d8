//! Splitting content into chunks: fixed-size, FastCDC and Rabin fingerprint chunkers.

pub mod config;
pub mod fastcdc;
pub mod fixed;
pub mod iter;
pub mod rabin;
pub mod rabin_core;
pub mod spans;
pub mod streaming;
pub mod types;

use vstd::prelude::*;

use vstd::string::*;

use crate::text::{lower_matches, lowercase_is, str_lowercase_is};
use config::ChunkingConfig;
use fastcdc::{FastCdcChunker, fastcdc_sizes_ok, fastcdc_spans};
use fixed::{FixedChunker, fixed_spans};
use iter::{ChunkIter, chunk_views, lemma_match_views, span_chunks};
use rabin::{RabinChunker, rabin_spans};
use spans::chunks_match;
use types::{ChunkData, is_tiling};

verus! {

/// Available chunking algorithms.
#[derive(Debug, Clone, Copy, PartialEq, Eq, Structural)]
pub enum ChunkingAlgorithm {
    /// Fixed-size chunks. Simple but poor deduplication when content shifts.
    Fixed,
    /// FastCDC content-defined chunking (the default).
    FastCdc,
    /// Rabin fingerprint chunking, compatible with IPFS.
    Rabin,
}

/// The algorithm a string names, ignoring case: "fixed"; "fastcdc", "fast_cdc" or
/// "fast-cdc"; "rabin".
pub open spec fn algorithm_named(s: Seq<char>) -> Option<ChunkingAlgorithm> {
    if lowercase_is(s, "fixed"@) {
        Some(ChunkingAlgorithm::Fixed)
    } else if lowercase_is(s, "fastcdc"@) || lowercase_is(s, "fast_cdc"@) || lowercase_is(s, "fast-cdc"@) {
        Some(ChunkingAlgorithm::FastCdc)
    } else if lowercase_is(s, "rabin"@) {
        Some(ChunkingAlgorithm::Rabin)
    } else {
        None
    }
}

/// The name of an algorithm, as `name` gives it.
pub open spec fn algorithm_name(a: ChunkingAlgorithm) -> Seq<char> {
    match a {
        ChunkingAlgorithm::Fixed => "fixed"@,
        ChunkingAlgorithm::FastCdc => "fastcdc"@,
        ChunkingAlgorithm::Rabin => "rabin"@,
    }
}

/// An algorithm's name parses back to the algorithm, in any casing of its letters: `s` is any
/// text that lowercases to the name (the name itself among them).
pub proof fn law_name_parses_back(a: ChunkingAlgorithm, s: Seq<char>)
    requires
        lowercase_is(s, algorithm_name(a)),
    ensures
        algorithm_named(s) == Some(a),
        lowercase_is(algorithm_name(a), algorithm_name(a)),
{
    reveal_strlit("fixed");
    reveal_strlit("fastcdc");
    reveal_strlit("fast_cdc");
    reveal_strlit("fast-cdc");
    reveal_strlit("rabin");
    let w = algorithm_name(a);
    assert(lower_matches(s[0], w[0]));
    assert forall|i: int| 0 <= i < w.len() implies #[trigger] lower_matches(w[i], w[i]) by {}
    match a {
        ChunkingAlgorithm::Rabin => {
            assert(w[0] == 'r');
            assert(!lower_matches(s[0], 'f'));
            if lowercase_is(s, "fixed"@) {
                assert(lower_matches(s[0], "fixed"@[0]));
                assert("fixed"@[0] == 'f');
            }
        },
        _ => {},
    }
}

impl Default for ChunkingAlgorithm {
    fn default() -> (r: Self)
        ensures
            r == ChunkingAlgorithm::FastCdc,
    {
        ChunkingAlgorithm::FastCdc
    }
}

impl ChunkingAlgorithm {
    /// A chunker of this algorithm with the given configuration.
    pub fn create_chunker(self, config: ChunkingConfig) -> (r: SelectedChunker)
        ensures
            match self {
                ChunkingAlgorithm::Fixed => r matches SelectedChunker::Fixed(c) && c.spec_config() == config,
                ChunkingAlgorithm::FastCdc => r matches SelectedChunker::FastCdc(c) && c.spec_config() == config,
                ChunkingAlgorithm::Rabin => r matches SelectedChunker::Rabin(c) && c.spec_config() == config,
            },
    {
        match self {
            ChunkingAlgorithm::Fixed => SelectedChunker::Fixed(FixedChunker::new(config)),
            ChunkingAlgorithm::FastCdc => SelectedChunker::FastCdc(FastCdcChunker::new(config)),
            ChunkingAlgorithm::Rabin => SelectedChunker::Rabin(RabinChunker::new(config)),
        }
    }

    /// The algorithm's name.
    pub fn name(&self) -> (r: &'static str)
        ensures
            r@ == algorithm_name(*self),
    {
        match self {
            ChunkingAlgorithm::Fixed => "fixed",
            ChunkingAlgorithm::FastCdc => "fastcdc",
            ChunkingAlgorithm::Rabin => "rabin",
        }
    }

    /// Parses an algorithm name, ignoring case.
    pub fn from_str(s: &str) -> (r: Option<Self>)
        ensures
            r == algorithm_named(s@),
    {
        if str_lowercase_is(s, "fixed") {
            Some(ChunkingAlgorithm::Fixed)
        } else if str_lowercase_is(s, "fastcdc") || str_lowercase_is(s, "fast_cdc") || str_lowercase_is(s, "fast-cdc") {
            Some(ChunkingAlgorithm::FastCdc)
        } else if str_lowercase_is(s, "rabin") {
            Some(ChunkingAlgorithm::Rabin)
        } else {
            None
        }
    }

    /// The algorithm `from_env` picks for the value of `CHUNKING_ALGORITHM` (`None` when unset):
    /// the named algorithm, or the default (FastCDC) when unset or unknown.
    pub fn from_value(value: Option<&str>) -> (r: Self)
        ensures
            r == match value {
                Some(s) => match algorithm_named(s@) { Some(a) => a, None => ChunkingAlgorithm::FastCdc },
                None => ChunkingAlgorithm::FastCdc,
            },
    {
        match value {
            Some(s) => match Self::from_str(s) {
                Some(a) => a,
                None => ChunkingAlgorithm::FastCdc,
            },
            None => ChunkingAlgorithm::FastCdc,
        }
    }
}

/// A chunker of one of the three algorithms.
#[derive(Debug, Clone)]
pub enum SelectedChunker {
    /// Fixed-size chunker.
    Fixed(FixedChunker),
    /// FastCDC chunker.
    FastCdc(FastCdcChunker),
    /// Rabin chunker.
    Rabin(RabinChunker),
}

/// Common interface of the chunkers.
pub trait Chunker {
    /// The chunker's configuration.
    spec fn chunker_config(&self) -> ChunkingConfig;

    /// The inputs the chunker can chunk (the others would panic or never finish).
    spec fn accepts(&self, data: Seq<u8>) -> bool;

    /// Where the chunker cuts an input: the spans of its chunks.
    spec fn chunk_spans(&self, data: Seq<u8>) -> Seq<(int, int)>;

    /// Chunks the whole input: the chunks tile it, cut where the chunker cuts.
    fn chunk(&self, data: &[u8]) -> (r: Vec<ChunkData>)
        requires
            self.accepts(data@),
        ensures
            is_tiling(r@, data@),
            chunks_match(r@, data@, self.chunk_spans(data@)),
    ;

    /// The same chunks as `chunk`, handed out one at a time.
    fn chunk_iter<'a>(&self, data: &'a [u8]) -> (r: ChunkIter<'a>)
        requires
            self.accepts(data@),
        ensures
            r.pending() == span_chunks(data@, self.chunk_spans(data@)),
    ;

    /// The algorithm's name.
    fn name(&self) -> (r: &'static str);

    /// The configuration.
    fn config(&self) -> (r: &ChunkingConfig)
        ensures
            *r == self.chunker_config(),
    ;

    /// The target chunk size.
    fn target_size(&self) -> (r: usize)
        ensures
            r == self.chunker_config().target_size,
    {
        self.config().target_size
    }
}

impl Chunker for FixedChunker {
    open spec fn chunker_config(&self) -> ChunkingConfig {
        self.spec_config()
    }

    open spec fn accepts(&self, data: Seq<u8>) -> bool {
        self.spec_config().target_size > 0
    }

    open spec fn chunk_spans(&self, data: Seq<u8>) -> Seq<(int, int)> {
        fixed_spans(data.len() as int, self.spec_config().target_size as int, 0)
    }

    fn chunk(&self, data: &[u8]) -> (r: Vec<ChunkData>) {
        FixedChunker::chunk(self, data)
    }

    fn chunk_iter<'a>(&self, data: &'a [u8]) -> (r: ChunkIter<'a>) {
        ChunkIter::fixed(data, FixedChunker::config(self).target_size)
    }

    fn name(&self) -> (r: &'static str)
        ensures
            r@ == "fixed"@,
    {
        "fixed"
    }

    fn config(&self) -> (r: &ChunkingConfig) {
        FixedChunker::config(self)
    }
}

impl Chunker for FastCdcChunker {
    open spec fn chunker_config(&self) -> ChunkingConfig {
        self.spec_config()
    }

    open spec fn accepts(&self, data: Seq<u8>) -> bool {
        data.len() > 0 ==> fastcdc_sizes_ok(self.spec_config().min_size, self.spec_config().target_size, self.spec_config().max_size)
    }

    open spec fn chunk_spans(&self, data: Seq<u8>) -> Seq<(int, int)> {
        fastcdc_spans(data, self.spec_config())
    }

    fn chunk(&self, data: &[u8]) -> (r: Vec<ChunkData>) {
        FastCdcChunker::chunk(self, data)
    }

    fn chunk_iter<'a>(&self, data: &'a [u8]) -> (r: ChunkIter<'a>) {
        let chunks = FastCdcChunker::chunk(self, data);
        proof {
            lemma_match_views(chunks@, data@, fastcdc_spans(data@, self.spec_config()));
        }
        ChunkIter::listed(chunks)
    }

    fn name(&self) -> (r: &'static str)
        ensures
            r@ == "fastcdc"@,
    {
        "fastcdc"
    }

    fn config(&self) -> (r: &ChunkingConfig) {
        FastCdcChunker::config(self)
    }
}

impl Chunker for RabinChunker {
    open spec fn chunker_config(&self) -> ChunkingConfig {
        self.spec_config()
    }

    open spec fn accepts(&self, data: Seq<u8>) -> bool {
        true
    }

    open spec fn chunk_spans(&self, data: Seq<u8>) -> Seq<(int, int)> {
        rabin_spans(self.spec_core().0, self.spec_core().1, data, 0, self.spec_config().min_size, self.spec_config().max_size)
    }

    fn chunk(&self, data: &[u8]) -> (r: Vec<ChunkData>) {
        RabinChunker::chunk(self, data)
    }

    fn chunk_iter<'a>(&self, data: &'a [u8]) -> (r: ChunkIter<'a>) {
        let chunks = RabinChunker::chunk(self, data);
        proof {
            lemma_match_views(chunks@, data@, self.chunk_spans(data@));
        }
        ChunkIter::listed(chunks)
    }

    fn name(&self) -> (r: &'static str)
        ensures
            r@ == "rabin"@,
    {
        "rabin"
    }

    fn config(&self) -> (r: &ChunkingConfig) {
        RabinChunker::config(self)
    }
}

impl Chunker for SelectedChunker {
    open spec fn chunker_config(&self) -> ChunkingConfig {
        match self {
            SelectedChunker::Fixed(c) => c.spec_config(),
            SelectedChunker::FastCdc(c) => c.spec_config(),
            SelectedChunker::Rabin(c) => c.spec_config(),
        }
    }

    open spec fn accepts(&self, data: Seq<u8>) -> bool {
        match self {
            SelectedChunker::Fixed(c) => c.accepts(data),
            SelectedChunker::FastCdc(c) => c.accepts(data),
            SelectedChunker::Rabin(c) => c.accepts(data),
        }
    }

    open spec fn chunk_spans(&self, data: Seq<u8>) -> Seq<(int, int)> {
        match self {
            SelectedChunker::Fixed(c) => c.chunk_spans(data),
            SelectedChunker::FastCdc(c) => c.chunk_spans(data),
            SelectedChunker::Rabin(c) => c.chunk_spans(data),
        }
    }

    fn chunk(&self, data: &[u8]) -> (r: Vec<ChunkData>) {
        match self {
            SelectedChunker::Fixed(c) => FixedChunker::chunk(c, data),
            SelectedChunker::FastCdc(c) => FastCdcChunker::chunk(c, data),
            SelectedChunker::Rabin(c) => RabinChunker::chunk(c, data),
        }
    }

    fn chunk_iter<'a>(&self, data: &'a [u8]) -> (r: ChunkIter<'a>) {
        match self {
            SelectedChunker::Fixed(c) => c.chunk_iter(data),
            SelectedChunker::FastCdc(c) => c.chunk_iter(data),
            SelectedChunker::Rabin(c) => c.chunk_iter(data),
        }
    }

    fn name(&self) -> (r: &'static str)
        ensures
            r@ == match self {
                SelectedChunker::Fixed(_) => "fixed"@,
                SelectedChunker::FastCdc(_) => "fastcdc"@,
                SelectedChunker::Rabin(_) => "rabin"@,
            },
    {
        match self {
            SelectedChunker::Fixed(_) => "fixed",
            SelectedChunker::FastCdc(_) => "fastcdc",
            SelectedChunker::Rabin(_) => "rabin",
        }
    }

    fn config(&self) -> (r: &ChunkingConfig) {
        match self {
            SelectedChunker::Fixed(c) => FixedChunker::config(c),
            SelectedChunker::FastCdc(c) => FastCdcChunker::config(c),
            SelectedChunker::Rabin(c) => RabinChunker::config(c),
        }
    }
}

/// The chunks `chunk_iter` hands out are those `chunk` returns: both are what the chunker's
/// spans cut out of the input.
pub proof fn law_chunk_iter_matches_chunk<C: Chunker>(chunker: &C, data: Seq<u8>, chunks: Seq<ChunkData>, pending: Seq<(Seq<u8>, u64)>)
    requires
        chunks_match(chunks, data, chunker.chunk_spans(data)),
        pending == span_chunks(data, chunker.chunk_spans(data)),
    ensures
        chunk_views(chunks) == pending,
{
    lemma_match_views(chunks, data, chunker.chunk_spans(data));
}

} // verus!
