//! Answering search queries from network peers: validation of incoming queries, the opt-in
//! decision, and the aggregator settings of ranking.

use vstd::prelude::*;
use vstd::string::*;

use crate::search::config::SearchConfig;
use crate::search::error::DistributedSearchError;
use crate::text::str_equals;

verus! {

/// How long a query stays fresh, in milliseconds.
pub const QUERY_FRESHNESS_MS: u64 = 60000;

/// Whether a query sent at `timestamp` (Unix milliseconds) is stale at `now`: older than the
/// freshness window.
pub open spec fn query_stale(timestamp: u64, now: u64) -> bool {
    timestamp < (if now >= QUERY_FRESHNESS_MS { now - QUERY_FRESHNESS_MS } else { 0 })
}

/// The problem with a query's text and limit, checked in order: empty text, text over 1000
/// bytes, zero limit, limit over 100.
pub open spec fn message_problem(query: Seq<u8>, limit: u32) -> Option<Seq<char>> {
    if query.len() == 0 {
        Some("Query cannot be empty"@)
    } else if query.len() > 1000 {
        Some("Query too long (max 1000 chars)"@)
    } else if limit == 0 {
        Some("Limit must be greater than 0"@)
    } else if limit > 100 {
        Some("Limit too high (max 100)"@)
    } else {
        None
    }
}

/// The problem with an incoming query: a problem of its text or limit, else staleness.
pub open spec fn query_problem(query: Seq<u8>, limit: u32, timestamp: u64, now: u64) -> Option<Seq<char>> {
    match message_problem(query, limit) {
        Some(m) => Some(m),
        None => if query_stale(timestamp, now) {
            Some("Query expired"@)
        } else {
            None
        },
    }
}

/// Whether a query sent at `timestamp` is stale at `now` (Unix milliseconds).
pub fn is_expired(timestamp: u64, now: u64) -> (r: bool)
    ensures
        r == query_stale(timestamp, now),
{
    timestamp < now.saturating_sub(QUERY_FRESHNESS_MS)
}

/// Validates an incoming query message's fields at time `now` (Unix milliseconds).
pub fn validate_query_message(query: &str, limit: u32, timestamp: u64, now: u64) -> (r: Result<(), DistributedSearchError>)
    ensures
        match query_problem(query.spec_bytes(), limit, timestamp, now) {
            Some(msg) => r matches Err(DistributedSearchError::InvalidQuery(m)) && m@ == msg,
            None => r is Ok,
        },
{
    let len = query.as_bytes().len();
    if len == 0 {
        return Err(DistributedSearchError::invalid_query("Query cannot be empty"));
    }
    if len > 1000 {
        return Err(DistributedSearchError::invalid_query("Query too long (max 1000 chars)"));
    }
    if limit == 0 {
        return Err(DistributedSearchError::invalid_query("Limit must be greater than 0"));
    }
    if limit > 100 {
        return Err(DistributedSearchError::invalid_query("Limit too high (max 100)"));
    }
    if is_expired(timestamp, now) {
        return Err(DistributedSearchError::invalid_query("Query expired"));
    }
    Ok(())
}

/// Statistics of the query handler.
#[derive(Debug, Clone, Copy)]
pub struct QueryHandlerStats {
    /// Whether queries are answered.
    pub responding: bool,
    /// Maximum results per answer.
    pub max_results: u32,
}

/// The handler's statistics under a configuration.
pub fn handler_stats(config: &SearchConfig) -> (r: QueryHandlerStats)
    ensures
        r.responding == config.respond_to_queries,
        r.max_results == config.max_results_per_query,
{
    QueryHandlerStats { responding: config.respond_to_queries, max_results: config.max_results_per_query }
}

/// Whether and how to answer an incoming query: only when answering is switched on, the query
/// is valid at `now`, and it does not come from this node; then with at most the configured
/// number of results.
pub fn plan_answer(
    config: &SearchConfig,
    local_peer_id: &str,
    query: &str,
    limit: u32,
    requester_peer_id: &str,
    timestamp: u64,
    now: u64,
) -> (r: Option<u32>)
    ensures
        r == if config.respond_to_queries && query_problem(query.spec_bytes(), limit, timestamp, now) is None
            && requester_peer_id@ != local_peer_id@ {
            Some(if limit <= config.max_results_per_query { limit } else { config.max_results_per_query })
        } else {
            None::<u32>
        },
{
    if !config.respond_to_queries {
        return None;
    }
    match validate_query_message(query, limit, timestamp, now) {
        Ok(()) => {},
        Err(_) => return None,
    }
    if str_equals(requester_peer_id, local_peer_id) {
        return None;
    }
    Some(if limit <= config.max_results_per_query { limit } else { config.max_results_per_query })
}

/// Settings of the result aggregator: whether remote results are penalized and whether results
/// found by several sources are boosted.
#[derive(Debug, Clone, Copy)]
pub struct ResultAggregator {
    apply_penalties: bool,
    apply_boost: bool,
}

impl ResultAggregator {
    /// Whether source penalties apply.
    pub closed spec fn spec_penalties(&self) -> bool {
        self.apply_penalties
    }

    /// Whether the popularity boost applies.
    pub closed spec fn spec_boost(&self) -> bool {
        self.apply_boost
    }

    /// An aggregator with penalties and boost.
    pub fn new() -> (r: Self)
        ensures
            r.spec_penalties(),
            r.spec_boost(),
    {
        ResultAggregator { apply_penalties: true, apply_boost: true }
    }

    /// This aggregator without source penalties.
    pub fn without_penalties(self) -> (r: Self)
        ensures
            !r.spec_penalties(),
            r.spec_boost() == self.spec_boost(),
    {
        ResultAggregator { apply_penalties: false, ..self }
    }

    /// This aggregator without the popularity boost.
    pub fn without_boost(self) -> (r: Self)
        ensures
            r.spec_penalties() == self.spec_penalties(),
            !r.spec_boost(),
    {
        ResultAggregator { apply_boost: false, ..self }
    }

    /// Whether source penalties apply.
    pub fn applies_penalties(&self) -> (r: bool)
        ensures
            r == self.spec_penalties(),
    {
        self.apply_penalties
    }

    /// Whether the popularity boost applies.
    pub fn applies_boost(&self) -> (r: bool)
        ensures
            r == self.spec_boost(),
    {
        self.apply_boost
    }
}

impl Default for ResultAggregator {
    fn default() -> (r: Self)
        ensures
            r.spec_penalties(),
            r.spec_boost(),
    {
        Self::new()
    }
}

} // verus!
