//! Configuration of distributed search: query responses, peer fan-out, timeouts and caching.

use vstd::prelude::*;

use std::time::Duration;

use crate::text::lowercase_is;

verus! {

/// The length of a duration in nanoseconds (as `std::time::Duration` holds it).
pub uninterp spec fn duration_nanos(d: Duration) -> nat;

/// A duration of `ms` milliseconds, by `Duration::from_millis`.
/// Trusted: the duration is `ms` milliseconds long, as the documentation states.
#[verifier::external_body]
pub(crate) fn duration_from_millis(ms: u64) -> (d: Duration)
    ensures
        duration_nanos(d) == ms as nat * 1_000_000,
{
    Duration::from_millis(ms)
}

/// A duration of `secs` seconds, by `Duration::from_secs`.
/// Trusted: the duration is `secs` seconds long, as the documentation states.
#[verifier::external_body]
pub(crate) fn duration_from_secs(secs: u64) -> (d: Duration)
    ensures
        duration_nanos(d) == secs as nat * 1_000_000_000,
{
    Duration::from_secs(secs)
}

/// The whole milliseconds of a duration, by `Duration::as_millis`.
/// Trusted: the documentation states that it is the total number of whole milliseconds.
#[verifier::external_body]
fn duration_as_millis(d: &Duration) -> (r: u128)
    ensures
        r == duration_nanos(*d) / 1_000_000,
{
    d.as_millis()
}

/// The whole seconds of a duration, by `Duration::as_secs`.
/// Trusted: the documentation states that it is the number of whole seconds.
#[verifier::external_body]
fn duration_as_secs(d: &Duration) -> (r: u64)
    ensures
        r == duration_nanos(*d) / 1_000_000_000,
{
    d.as_secs()
}

/// Configuration of distributed search.
#[derive(Debug, Clone, Copy, PartialEq, Eq, Structural)]
pub struct SearchConfig {
    /// Whether to answer search queries from the network (off by default, for privacy).
    pub respond_to_queries: bool,
    /// Maximum results per query response.
    pub max_results_per_query: u32,
    /// Number of peers queried in a live search.
    pub peer_count: u32,
    /// Timeout of network queries, in milliseconds.
    pub network_timeout_ms: u64,
    /// Whether a failed peer query is retried once.
    pub retry_enabled: bool,
    /// Cache time-to-live, in seconds.
    pub cache_ttl_secs: u64,
    /// Maximum cache entries.
    pub cache_max_entries: usize,
}

/// The default configuration.
pub open spec fn default_search_config() -> SearchConfig {
    SearchConfig {
        respond_to_queries: false,
        max_results_per_query: 20,
        peer_count: 15,
        network_timeout_ms: 500,
        retry_enabled: true,
        cache_ttl_secs: 15,
        cache_max_entries: 1000,
    }
}

impl Default for SearchConfig {
    fn default() -> (r: Self)
        ensures
            r == default_search_config(),
    {
        SearchConfig {
            respond_to_queries: false,
            max_results_per_query: 20,
            peer_count: 15,
            network_timeout_ms: 500,
            retry_enabled: true,
            cache_ttl_secs: 15,
            cache_max_entries: 1000,
        }
    }
}

/// The text values that switch a boolean setting on: "true" in any case.
pub open spec fn flag_value(value: Seq<char>) -> bool {
    lowercase_is(value, "true"@)
}

impl SearchConfig {
    /// The default configuration.
    pub fn new() -> (r: Self)
        ensures
            r == default_search_config(),
    {
        Self::default()
    }

    /// Enables or disables answering network queries.
    pub fn with_respond_to_queries(self, respond: bool) -> (r: Self)
        ensures
            r == (SearchConfig { respond_to_queries: respond, ..self }),
    {
        SearchConfig { respond_to_queries: respond, ..self }
    }

    /// Sets the maximum results per query.
    pub fn with_max_results(self, max: u32) -> (r: Self)
        ensures
            r == (SearchConfig { max_results_per_query: max, ..self }),
    {
        SearchConfig { max_results_per_query: max, ..self }
    }

    /// Sets the number of peers to query.
    pub fn with_peer_count(self, count: u32) -> (r: Self)
        ensures
            r == (SearchConfig { peer_count: count, ..self }),
    {
        SearchConfig { peer_count: count, ..self }
    }

    /// Sets the network timeout in milliseconds.
    pub fn with_timeout_ms(self, timeout_ms: u64) -> (r: Self)
        ensures
            r == (SearchConfig { network_timeout_ms: timeout_ms, ..self }),
    {
        SearchConfig { network_timeout_ms: timeout_ms, ..self }
    }

    /// Sets the network timeout: its whole milliseconds, cut to 64 bits.
    pub fn with_timeout(self, timeout: Duration) -> (r: Self)
        ensures
            r == (SearchConfig { network_timeout_ms: (duration_nanos(timeout) / 1_000_000) as u64, ..self }),
    {
        let ms = duration_as_millis(&timeout);
        SearchConfig { network_timeout_ms: ms as u64, ..self }
    }

    /// Enables or disables the retry of failed peer queries.
    pub fn with_retry(self, retry: bool) -> (r: Self)
        ensures
            r == (SearchConfig { retry_enabled: retry, ..self }),
    {
        SearchConfig { retry_enabled: retry, ..self }
    }

    /// Sets the cache time-to-live in seconds.
    pub fn with_cache_ttl_secs(self, ttl: u64) -> (r: Self)
        ensures
            r == (SearchConfig { cache_ttl_secs: ttl, ..self }),
    {
        SearchConfig { cache_ttl_secs: ttl, ..self }
    }

    /// Sets the cache time-to-live: its whole seconds.
    pub fn with_cache_ttl(self, ttl: Duration) -> (r: Self)
        ensures
            r == (SearchConfig { cache_ttl_secs: (duration_nanos(ttl) / 1_000_000_000) as u64, ..self }),
    {
        let secs = duration_as_secs(&ttl);
        SearchConfig { cache_ttl_secs: secs, ..self }
    }

    /// Sets the maximum cache entries.
    pub fn with_cache_size(self, size: usize) -> (r: Self)
        ensures
            r == (SearchConfig { cache_max_entries: size, ..self }),
    {
        SearchConfig { cache_max_entries: size, ..self }
    }

    /// The network timeout as a duration.
    pub fn network_timeout(&self) -> (r: Duration)
        ensures
            duration_nanos(r) == self.network_timeout_ms as nat * 1_000_000,
    {
        duration_from_millis(self.network_timeout_ms)
    }

    /// The cache time-to-live as a duration.
    pub fn cache_ttl(&self) -> (r: Duration)
        ensures
            duration_nanos(r) == self.cache_ttl_secs as nat * 1_000_000_000,
    {
        duration_from_secs(self.cache_ttl_secs)
    }

    /// The configuration `from_env` builds from the variables it read: for each variable
    /// that is set, a flag is on when its value is "true" in any case, and a number replaces
    /// the default when it parses (`None` for an unset flag or a number that is unset or does
    /// not parse).
    pub fn from_values(
        respond_to_queries: Option<&str>,
        max_results_per_query: Option<u32>,
        peer_count: Option<u32>,
        network_timeout_ms: Option<u64>,
        retry_enabled: Option<&str>,
        cache_ttl_secs: Option<u64>,
        cache_max_entries: Option<usize>,
    ) -> (r: Self)
        ensures
            r.respond_to_queries == match respond_to_queries { Some(v) => flag_value(v@), None => false },
            r.max_results_per_query == match max_results_per_query { Some(n) => n, None => 20 },
            r.peer_count == match peer_count { Some(n) => n, None => 15 },
            r.network_timeout_ms == match network_timeout_ms { Some(n) => n, None => 500 },
            r.retry_enabled == match retry_enabled { Some(v) => flag_value(v@), None => true },
            r.cache_ttl_secs == match cache_ttl_secs { Some(n) => n, None => 15 },
            r.cache_max_entries == match cache_max_entries { Some(n) => n, None => 1000 },
    {
        let mut c = Self::default();
        match respond_to_queries {
            Some(v) => {
                c.respond_to_queries = crate::text::str_lowercase_is(v, "true");
            },
            None => {},
        }
        match max_results_per_query {
            Some(n) => {
                c.max_results_per_query = n;
            },
            None => {},
        }
        match peer_count {
            Some(n) => {
                c.peer_count = n;
            },
            None => {},
        }
        match network_timeout_ms {
            Some(n) => {
                c.network_timeout_ms = n;
            },
            None => {},
        }
        match retry_enabled {
            Some(v) => {
                c.retry_enabled = crate::text::str_lowercase_is(v, "true");
            },
            None => {},
        }
        match cache_ttl_secs {
            Some(n) => {
                c.cache_ttl_secs = n;
            },
            None => {},
        }
        match cache_max_entries {
            Some(n) => {
                c.cache_max_entries = n;
            },
            None => {},
        }
        c
    }
}

/// A timeout set from a duration of whole milliseconds is that many milliseconds, so
/// `network_timeout` gives back a duration of the same length.
pub proof fn law_timeout_round_trip(ms: u64, d: Duration)
    requires
        duration_nanos(d) == ms as nat * 1_000_000,
    ensures
        ((duration_nanos(d) / 1_000_000) as u64) == ms,
{
    assert(duration_nanos(d) / 1_000_000 == ms as nat) by (nonlinear_arith)
        requires duration_nanos(d) == ms as nat * 1_000_000;
}

/// A time-to-live set from a duration of whole seconds is that many seconds, so `cache_ttl`
/// gives back a duration of the same length.
pub proof fn law_cache_ttl_round_trip(secs: u64, d: Duration)
    requires
        duration_nanos(d) == secs as nat * 1_000_000_000,
    ensures
        ((duration_nanos(d) / 1_000_000_000) as u64) == secs,
{
    assert(duration_nanos(d) / 1_000_000_000 == secs as nat) by (nonlinear_arith)
        requires duration_nanos(d) == secs as nat * 1_000_000_000;
}

} // verus!
