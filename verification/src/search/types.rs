//! Requests and result sources of distributed search.

use vstd::prelude::*;

verus! {

/// Which sources a distributed search queries.
#[derive(Debug, Clone, Copy, PartialEq, Eq, Structural)]
pub enum DistributedSearchScope {
    /// Only local space collections.
    Local,
    /// Only network sources (prefetched and live).
    Network,
    /// All sources (the default).
    All,
}

impl Default for DistributedSearchScope {
    fn default() -> (r: Self)
        ensures
            r == DistributedSearchScope::All,
    {
        DistributedSearchScope::All
    }
}

impl DistributedSearchScope {
    /// Whether local collections are searched.
    pub fn includes_local(&self) -> (r: bool)
        ensures
            r == (*self == DistributedSearchScope::Local || *self == DistributedSearchScope::All),
    {
        match self {
            DistributedSearchScope::Local | DistributedSearchScope::All => true,
            DistributedSearchScope::Network => false,
        }
    }

    /// Whether network sources are searched.
    pub fn includes_network(&self) -> (r: bool)
        ensures
            r == (*self == DistributedSearchScope::Network || *self == DistributedSearchScope::All),
    {
        match self {
            DistributedSearchScope::Network | DistributedSearchScope::All => true,
            DistributedSearchScope::Local => false,
        }
    }

    /// The scope's name: "local", "network" or "all".
    pub fn as_str(&self) -> (r: &'static str)
        ensures
            r@ == match *self {
                DistributedSearchScope::Local => "local"@,
                DistributedSearchScope::Network => "network"@,
                DistributedSearchScope::All => "all"@,
            },
    {
        match self {
            DistributedSearchScope::Local => "local",
            DistributedSearchScope::Network => "network",
            DistributedSearchScope::All => "all",
        }
    }
}

/// Default result limit of a request.
pub const DEFAULT_LIMIT: u32 = 10;

/// An incoming search request.
#[derive(Debug, Clone)]
pub struct DistributedSearchRequest {
    /// The query text.
    pub query: String,
    /// The search scope.
    pub scope: DistributedSearchScope,
    /// Maximum results to return.
    pub limit: u32,
}

impl DistributedSearchRequest {
    /// A request with the default scope (all sources) and limit (10).
    pub fn new(query: &str) -> (r: Self)
        ensures
            r.query@ == query@,
            r.scope == DistributedSearchScope::All,
            r.limit == DEFAULT_LIMIT,
    {
        DistributedSearchRequest { query: query.to_owned(), scope: DistributedSearchScope::All, limit: DEFAULT_LIMIT }
    }

    /// Sets the scope.
    pub fn with_scope(self, scope: DistributedSearchScope) -> (r: Self)
        ensures
            r.query == self.query,
            r.scope == scope,
            r.limit == self.limit,
    {
        let mut req = self;
        req.scope = scope;
        req
    }

    /// Sets the result limit.
    pub fn with_limit(self, limit: u32) -> (r: Self)
        ensures
            r.query == self.query,
            r.scope == self.scope,
            r.limit == limit,
    {
        let mut req = self;
        req.limit = limit;
        req
    }
}

/// Where a search result came from.
#[derive(Debug, Clone, Copy, PartialEq, Eq, Structural)]
pub enum ResultSource {
    /// A local space collection.
    Local,
    /// The network (prefetched or live).
    Network,
}

impl ResultSource {
    /// Whether the result is local.
    pub fn is_local(&self) -> (r: bool)
        ensures
            r == (*self == ResultSource::Local),
    {
        match self {
            ResultSource::Local => true,
            ResultSource::Network => false,
        }
    }

    /// Whether the result came from the network.
    pub fn is_network(&self) -> (r: bool)
        ensures
            r == (*self == ResultSource::Network),
    {
        match self {
            ResultSource::Network => true,
            ResultSource::Local => false,
        }
    }

    /// The source's name: "local" or "network".
    pub fn as_str(&self) -> (r: &'static str)
        ensures
            r@ == match *self {
                ResultSource::Local => "local"@,
                ResultSource::Network => "network"@,
            },
    {
        match self {
            ResultSource::Local => "local",
            ResultSource::Network => "network",
        }
    }
}

} // verus!
