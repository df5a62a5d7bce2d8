//! Errors of distributed search, their codes, and validation of search requests.

use vstd::prelude::*;

use vstd::string::*;

use crate::text::{decimal, decimal_string};

verus! {

/// Errors of distributed search.
#[derive(Debug)]
pub enum DistributedSearchError {
    /// Invalid query parameters.
    InvalidQuery(String),
    /// Invalid scope parameter.
    InvalidScope(String),
    /// Embedding generation failed.
    Embedding(String),
    /// Vector database error.
    Qdrant(String),
    /// Network communication error.
    Network(String),
    /// Message serialization error.
    Serialization(String),
    /// Message deserialization error.
    Deserialization(String),
    /// No peers available for a network search.
    NoPeersAvailable,
    /// The search timed out.
    Timeout,
    /// Internal error.
    Internal(String),
    /// Query validation failed.
    Validation(String),
}

/// The error code of an error.
pub open spec fn error_code_of(e: DistributedSearchError) -> Seq<char> {
    match e {
        DistributedSearchError::InvalidQuery(_) => "INVALID_QUERY"@,
        DistributedSearchError::InvalidScope(_) => "INVALID_SCOPE"@,
        DistributedSearchError::Validation(_) => "VALIDATION_ERROR"@,
        DistributedSearchError::Embedding(_) => "EMBEDDING_ERROR"@,
        DistributedSearchError::Qdrant(_) => "QDRANT_ERROR"@,
        DistributedSearchError::Network(_) => "NETWORK_ERROR"@,
        DistributedSearchError::Serialization(_) => "SERIALIZATION_ERROR"@,
        DistributedSearchError::Deserialization(_) => "DESERIALIZATION_ERROR"@,
        DistributedSearchError::NoPeersAvailable => "NETWORK_UNAVAILABLE"@,
        DistributedSearchError::Timeout => "TIMEOUT"@,
        DistributedSearchError::Internal(_) => "INTERNAL_ERROR"@,
    }
}

/// The HTTP status of an error: 400 for bad requests, 503 without peers, 504 on timeout,
/// 500 otherwise.
pub open spec fn http_status_of(e: DistributedSearchError) -> u16 {
    match e {
        DistributedSearchError::InvalidQuery(_) | DistributedSearchError::InvalidScope(_)
        | DistributedSearchError::Validation(_) => 400,
        DistributedSearchError::NoPeersAvailable => 503,
        DistributedSearchError::Timeout => 504,
        _ => 500,
    }
}

impl DistributedSearchError {
    /// The HTTP status code number of this error.
    pub fn http_status(&self) -> (r: u16)
        ensures
            r == http_status_of(*self),
    {
        match self {
            DistributedSearchError::InvalidQuery(_) | DistributedSearchError::InvalidScope(_)
            | DistributedSearchError::Validation(_) => 400,
            DistributedSearchError::NoPeersAvailable => 503,
            DistributedSearchError::Timeout => 504,
            _ => 500,
        }
    }

    /// The error code of this error.
    pub fn error_code(&self) -> (r: &'static str)
        ensures
            r@ == error_code_of(*self),
    {
        match self {
            DistributedSearchError::InvalidQuery(_) => "INVALID_QUERY",
            DistributedSearchError::InvalidScope(_) => "INVALID_SCOPE",
            DistributedSearchError::Validation(_) => "VALIDATION_ERROR",
            DistributedSearchError::Embedding(_) => "EMBEDDING_ERROR",
            DistributedSearchError::Qdrant(_) => "QDRANT_ERROR",
            DistributedSearchError::Network(_) => "NETWORK_ERROR",
            DistributedSearchError::Serialization(_) => "SERIALIZATION_ERROR",
            DistributedSearchError::Deserialization(_) => "DESERIALIZATION_ERROR",
            DistributedSearchError::NoPeersAvailable => "NETWORK_UNAVAILABLE",
            DistributedSearchError::Timeout => "TIMEOUT",
            DistributedSearchError::Internal(_) => "INTERNAL_ERROR",
        }
    }

    /// An invalid-query error.
    pub fn invalid_query(msg: &str) -> (r: Self)
        ensures
            r matches DistributedSearchError::InvalidQuery(m) && m@ == msg@,
    {
        DistributedSearchError::InvalidQuery(msg.to_owned())
    }

    /// A validation error.
    pub fn validation(msg: &str) -> (r: Self)
        ensures
            r matches DistributedSearchError::Validation(m) && m@ == msg@,
    {
        DistributedSearchError::Validation(msg.to_owned())
    }

    /// A network error.
    pub fn network(msg: &str) -> (r: Self)
        ensures
            r matches DistributedSearchError::Network(m) && m@ == msg@,
    {
        DistributedSearchError::Network(msg.to_owned())
    }

    /// An internal error.
    pub fn internal(msg: &str) -> (r: Self)
        ensures
            r matches DistributedSearchError::Internal(m) && m@ == msg@,
    {
        DistributedSearchError::Internal(msg.to_owned())
    }
}

/// Maximum query length, in bytes of UTF-8.
pub const MAX_QUERY_LENGTH: usize = 1000;

/// Maximum result limit.
pub const MAX_LIMIT: u32 = 100;

/// The message for a query that is too long.
pub open spec fn msg_query_too_long(len: nat) -> Seq<char> {
    "Query too long: "@ + decimal(len) + " chars (max 1000)"@
}

/// The message for a limit that is too high.
pub open spec fn msg_limit_too_high(limit: nat) -> Seq<char> {
    "Limit too high: "@ + decimal(limit) + " (max 100)"@
}

/// Renders the message for a query that is too long.
fn query_too_long_message(len: usize) -> (r: String)
    ensures
        r@ == msg_query_too_long(len as nat),
{
    let r = String::from_str("Query too long: ").concat(decimal_string(len as u64).as_str()).concat(" chars (max 1000)");
    assert(r@ =~= msg_query_too_long(len as nat));
    r
}

/// Renders the message for a limit that is too high.
fn limit_too_high_message(limit: u32) -> (r: String)
    ensures
        r@ == msg_limit_too_high(limit as nat),
{
    let r = String::from_str("Limit too high: ").concat(decimal_string(limit as u64).as_str()).concat(" (max 100)");
    assert(r@ =~= msg_limit_too_high(limit as nat));
    r
}

/// Validation of search requests.
#[derive(Debug)]
pub struct RequestValidator;

impl RequestValidator {
    /// Checks a query: not empty, at most `MAX_QUERY_LENGTH` bytes.
    pub fn validate_query(query: &str) -> (r: Result<(), DistributedSearchError>)
        ensures
            query@.len() == 0 ==> (r matches Err(DistributedSearchError::Validation(m)) && m@ == "Query cannot be empty"@),
            query@.len() > 0 && query.spec_bytes().len() > MAX_QUERY_LENGTH ==> (r matches Err(DistributedSearchError::Validation(m))
                && m@ == msg_query_too_long(query.spec_bytes().len())),
            query@.len() > 0 && query.spec_bytes().len() <= MAX_QUERY_LENGTH ==> r is Ok,
    {
        if query.unicode_len() == 0 {
            return Err(DistributedSearchError::validation("Query cannot be empty"));
        }
        let len = query.as_bytes().len();
        if len > MAX_QUERY_LENGTH {
            return Err(DistributedSearchError::Validation(query_too_long_message(len)));
        }
        Ok(())
    }

    /// Checks a result limit: at least 1, at most `MAX_LIMIT`.
    pub fn validate_limit(limit: u32) -> (r: Result<(), DistributedSearchError>)
        ensures
            limit == 0 ==> (r matches Err(DistributedSearchError::Validation(m)) && m@ == "Limit must be greater than 0"@),
            limit > MAX_LIMIT ==> (r matches Err(DistributedSearchError::Validation(m)) && m@ == msg_limit_too_high(limit as nat)),
            1 <= limit <= MAX_LIMIT ==> r is Ok,
    {
        if limit == 0 {
            return Err(DistributedSearchError::validation("Limit must be greater than 0"));
        }
        if limit > MAX_LIMIT {
            return Err(DistributedSearchError::Validation(limit_too_high_message(limit)));
        }
        Ok(())
    }

    /// Checks a whole request: the query first, then the limit.
    pub fn validate(query: &str, limit: u32) -> (r: Result<(), DistributedSearchError>)
        ensures
            query@.len() == 0 ==> (r matches Err(DistributedSearchError::Validation(m)) && m@ == "Query cannot be empty"@),
            query@.len() > 0 && query.spec_bytes().len() > MAX_QUERY_LENGTH ==> (r matches Err(DistributedSearchError::Validation(m))
                && m@ == msg_query_too_long(query.spec_bytes().len())),
            query@.len() > 0 && query.spec_bytes().len() <= MAX_QUERY_LENGTH && limit == 0 ==> (r matches Err(
                DistributedSearchError::Validation(m)) && m@ == "Limit must be greater than 0"@),
            query@.len() > 0 && query.spec_bytes().len() <= MAX_QUERY_LENGTH && limit > MAX_LIMIT ==> (r matches Err(
                DistributedSearchError::Validation(m)) && m@ == msg_limit_too_high(limit as nat)),
            query@.len() > 0 && query.spec_bytes().len() <= MAX_QUERY_LENGTH && 1 <= limit <= MAX_LIMIT ==> r is Ok,
    {
        match Self::validate_query(query) {
            Ok(()) => {},
            Err(e) => return Err(e),
        }
        match Self::validate_limit(limit) {
            Ok(()) => {},
            Err(e) => return Err(e),
        }
        Ok(())
    }
}

} // verus!
