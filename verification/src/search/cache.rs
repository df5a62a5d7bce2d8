//! Keys and statistics of the search result cache.

use vstd::prelude::*;
use vstd::string::*;

use crate::content_id::{sha256, sha256_digest};

verus! {

/// Statistics of the result cache.
#[derive(Debug, Clone, Copy)]
pub struct CacheStats {
    /// Current number of entries.
    pub entries: usize,
    /// Total hits.
    pub hits: u64,
    /// Total misses.
    pub misses: u64,
    /// Time-to-live in seconds.
    pub ttl_secs: u64,
}

/// The hit and miss counters of the result cache, and its time-to-live.
#[derive(Debug, Clone, Copy)]
pub struct CacheCounters {
    /// Lookups answered from the cache.
    pub hits: u64,
    /// Lookups not answered from the cache.
    pub misses: u64,
    /// Time-to-live of entries, in milliseconds.
    pub ttl_ms: u64,
}

impl CacheCounters {
    /// Counters at zero for entries living `ttl_ms`.
    pub fn new(ttl_ms: u64) -> (r: Self)
        ensures
            r.hits == 0 && r.misses == 0 && r.ttl_ms == ttl_ms,
    {
        CacheCounters { hits: 0, misses: 0, ttl_ms }
    }

    /// Records a lookup whose entry, if any, is `age_ms` old: an entry younger than the
    /// time-to-live is a hit and is answered; a missing or expired entry is a miss. The counters
    /// stop at their maximum.
    pub fn record_lookup(&mut self, age_ms: Option<u64>) -> (r: bool)
        ensures
            r == (age_ms matches Some(a) && a < old(self).ttl_ms),
            final(self).ttl_ms == old(self).ttl_ms,
            r ==> final(self).hits == (if old(self).hits < u64::MAX { old(self).hits + 1 } else { old(self).hits as int })
                && final(self).misses == old(self).misses,
            !r ==> final(self).misses == (if old(self).misses < u64::MAX { old(self).misses + 1 } else { old(self).misses as int })
                && final(self).hits == old(self).hits,
    {
        let fresh = match age_ms {
            Some(a) => a < self.ttl_ms,
            None => false,
        };
        if fresh {
            self.hits = self.hits.saturating_add(1);
        } else {
            self.misses = self.misses.saturating_add(1);
        }
        fresh
    }

    /// The statistics with `entries` entries held.
    pub fn stats(&self, entries: usize) -> (r: CacheStats)
        ensures
            r.entries == entries && r.hits == self.hits && r.misses == self.misses && r.ttl_secs == self.ttl_ms / 1000,
    {
        CacheStats { entries, hits: self.hits, misses: self.misses, ttl_secs: self.ttl_ms / 1000 }
    }

    /// The counters set back to zero.
    pub fn reset(&mut self)
        ensures
            final(self).hits == 0 && final(self).misses == 0 && final(self).ttl_ms == old(self).ttl_ms,
    {
        self.hits = 0;
        self.misses = 0;
    }
}

/// The lowercase hexadecimal digit of a value below 16.
pub open spec fn hex_digit(d: nat) -> char {
    if d < 10 { ((48 + d) as u8) as char } else { ((87 + d) as u8) as char }
}

/// The lowercase hexadecimal form of bytes, two digits per byte.
pub open spec fn hex_lower(b: Seq<u8>) -> Seq<char>
    decreases b.len(),
{
    if b.len() == 0 {
        Seq::empty()
    } else {
        hex_lower(b.drop_last()) + seq![hex_digit((b.last() / 16) as nat), hex_digit((b.last() % 16) as nat)]
    }
}

/// The text of one hexadecimal digit.
fn hex_digit_text(d: u8) -> (r: &'static str)
    requires
        d < 16,
    ensures
        r@ == seq![hex_digit(d as nat)],
{
    proof {
        reveal_strlit("0");
        reveal_strlit("1");
        reveal_strlit("2");
        reveal_strlit("3");
        reveal_strlit("4");
        reveal_strlit("5");
        reveal_strlit("6");
        reveal_strlit("7");
        reveal_strlit("8");
        reveal_strlit("9");
        reveal_strlit("a");
        reveal_strlit("b");
        reveal_strlit("c");
        reveal_strlit("d");
        reveal_strlit("e");
        reveal_strlit("f");
    }
    let r = if d == 0 { "0" } else if d == 1 { "1" } else if d == 2 { "2" } else if d == 3 { "3" } else if d == 4 {
        "4"
    } else if d == 5 { "5" } else if d == 6 { "6" } else if d == 7 { "7" } else if d == 8 { "8" } else if d == 9 {
        "9"
    } else if d == 10 { "a" } else if d == 11 { "b" } else if d == 12 { "c" } else if d == 13 { "d" } else if d == 14 {
        "e"
    } else { "f" };
    assert(r@ =~= seq![hex_digit(d as nat)]);
    r
}

/// The lowercase hexadecimal form of bytes.
pub fn hex_encode(b: &[u8]) -> (r: String)
    ensures
        r@ == hex_lower(b@),
{
    let mut out = String::new();
    let mut i: usize = 0;
    assert(out@ =~= hex_lower(b@.subrange(0, 0)));
    while i < b.len()
        invariant
            i <= b@.len(),
            out@ == hex_lower(b@.subrange(0, i as int)),
        decreases b@.len() - i,
    {
        let x = b[i];
        out.append(hex_digit_text(x / 16));
        out.append(hex_digit_text(x % 16));
        proof {
            let next = b@.subrange(0, i + 1);
            assert(next.drop_last() =~= b@.subrange(0, i as int));
            assert(next.last() == x);
        }
        i = i + 1;
        assert(out@ =~= hex_lower(b@.subrange(0, i as int)));
    }
    assert(b@.subrange(0, b@.len() as int) =~= b@);
    out
}

/// The four little-endian bytes of a 32-bit number.
pub open spec fn le4(n: u32) -> Seq<u8> {
    seq![(n % 256) as u8, ((n / 256) % 256) as u8, ((n / 65536) % 256) as u8, ((n / 16777216) % 256) as u8]
}

/// The cache key of a query: the first 16 bytes of the SHA2-256 digest of the query's bytes,
/// the scope's bytes and the limit's four little-endian bytes, in lowercase hexadecimal.
pub open spec fn cache_key_of(query: Seq<u8>, scope: Seq<u8>, limit: u32) -> Seq<char> {
    hex_lower(sha256_digest(query + scope + le4(limit)).subrange(0, 16))
}

/// The cache key of a query, scope and limit.
pub fn cache_key(query: &str, scope: &str, limit: u32) -> (r: String)
    ensures
        r@ == cache_key_of(query.spec_bytes(), scope.spec_bytes(), limit),
        r@.len() == 32,
{
    let mut input: Vec<u8> = Vec::new();
    crate::dag_cbor::push_raw(&mut input, query.as_bytes());
    crate::dag_cbor::push_raw(&mut input, scope.as_bytes());
    input.push((limit % 256) as u8);
    input.push(((limit / 256) % 256) as u8);
    input.push(((limit / 65536) % 256) as u8);
    input.push(((limit / 16777216) % 256) as u8);
    assert(input@ =~= query.spec_bytes() + scope.spec_bytes() + le4(limit));
    let digest = sha256(input.as_slice());
    let mut head: Vec<u8> = Vec::new();
    let mut i: usize = 0;
    while i < 16
        invariant
            digest@.len() == 32,
            i <= 16,
            head@ == digest@.subrange(0, i as int),
        decreases 16 - i,
    {
        head.push(digest[i]);
        i = i + 1;
        assert(head@ =~= digest@.subrange(0, i as int));
    }
    let r = hex_encode(head.as_slice());
    proof {
        lemma_hex_len(head@);
    }
    r
}

proof fn lemma_hex_len(b: Seq<u8>)
    ensures
        hex_lower(b).len() == 2 * b.len(),
    decreases b.len(),
{
    if b.len() > 0 {
        lemma_hex_len(b.drop_last());
    }
}

} // verus!
