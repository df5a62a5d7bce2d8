//! The search query message that peers broadcast to ask each other for results.

use vstd::prelude::*;
use vstd::string::*;

use crate::search::error::DistributedSearchError;
use crate::search::handler::{is_expired, message_problem, query_problem, query_stale, validate_query_message};

verus! {

/// The bits of a random (version 4, RFC 4122 variant) UUID's 128-bit value that are fixed.
pub const UUID_V4_MASK: u128 = 0x0000_0000_0000_F000_C000_0000_0000_0000;

/// What those bits hold: version 4 and the RFC 4122 variant.
pub const UUID_V4_BITS: u128 = 0x0000_0000_0000_4000_8000_0000_0000_0000;

/// A fresh random query identifier: the 128-bit value of `uuid::Uuid::new_v4()`. Claimed: its
/// version and variant bits are those of a version 4 UUID, as `new_v4` sets them over random
/// bits; nothing else is claimed of the value.
#[verifier::external_body]
fn random_query_id() -> (r: u128)
    ensures
        r & UUID_V4_MASK == UUID_V4_BITS,
{
    uuid::Uuid::new_v4().as_u128()
}

/// The current time in Unix epoch milliseconds, by `std::time::SystemTime::now`; 0 when the
/// clock is before the epoch. Nothing is stated of the value: it is the machine's clock.
#[verifier::external_body]
fn now_unix_millis() -> (r: u64) {
    match std::time::SystemTime::now().duration_since(std::time::UNIX_EPOCH) {
        Ok(d) => d.as_millis() as u64,
        Err(_) => 0,
    }
}

/// A search query broadcast to peers. The query identifier is the 128-bit value of a UUID.
#[derive(Debug, Clone)]
pub struct SearchQueryMessage {
    /// Identifier that correlates responses with the query.
    pub query_id: u128,
    /// The search text.
    pub query: String,
    /// Maximum results requested from each peer.
    pub limit: u32,
    /// The requester's peer identifier (base58), for the direct response.
    pub requester_peer_id: String,
    /// When the query was created, in Unix milliseconds.
    pub timestamp: u64,
}

impl SearchQueryMessage {
    /// A new query with a fresh random identifier, stamped with the current time.
    pub fn new(query: &str, limit: u32, requester_peer_id: &str) -> (r: Self)
        ensures
            r.query@ == query@,
            r.limit == limit,
            r.requester_peer_id@ == requester_peer_id@,
            r.query_id & UUID_V4_MASK == UUID_V4_BITS,
    {
        let query_id = random_query_id();
        Self::with_id(query_id, query, limit, requester_peer_id)
    }

    /// A new query with the given identifier, stamped with the current time: the reading of
    /// the millisecond clock, handed to `with_id_at` as it is.
    pub fn with_id(query_id: u128, query: &str, limit: u32, requester_peer_id: &str) -> (r: Self)
        ensures
            r.query_id == query_id,
            r.query@ == query@,
            r.limit == limit,
            r.requester_peer_id@ == requester_peer_id@,
    {
        Self::with_id_at(query_id, query, limit, requester_peer_id, now_unix_millis())
    }

    /// A new query with the given identifier, created at `now` (Unix milliseconds): its
    /// timestamp is `now`.
    pub fn with_id_at(query_id: u128, query: &str, limit: u32, requester_peer_id: &str, now: u64) -> (r: Self)
        ensures
            r.query_id == query_id,
            r.query@ == query@,
            r.limit == limit,
            r.requester_peer_id@ == requester_peer_id@,
            r.timestamp == now,
            !query_stale(r.timestamp, now),
    {
        let r = SearchQueryMessage {
            query_id,
            query: query.to_owned(),
            limit,
            requester_peer_id: requester_peer_id.to_owned(),
            timestamp: now,
        };
        proof {
            law_stale_after_a_minute(now, now);
        }
        r
    }

    /// Validates the message at time `now` (Unix milliseconds): the text, the limit, then
    /// freshness within 60 seconds.
    pub fn validate_at(&self, now: u64) -> (r: Result<(), DistributedSearchError>)
        ensures
            match query_problem(vstd::utf8::encode_utf8(self.query@), self.limit, self.timestamp, now) {
                Some(msg) => r matches Err(DistributedSearchError::InvalidQuery(m)) && m@ == msg,
                None => r is Ok,
            },
    {
        validate_query_message(self.query.as_str(), self.limit, self.timestamp, now)
    }

    /// Validates the message at the current time. The text and limit decide exactly; a
    /// message that passes them is accepted, or refused as expired, as the clock says.
    pub fn validate(&self) -> (r: Result<(), DistributedSearchError>)
        ensures
            match message_problem(vstd::utf8::encode_utf8(self.query@), self.limit) {
                Some(msg) => r matches Err(DistributedSearchError::InvalidQuery(m)) && m@ == msg,
                None => r is Ok || (r matches Err(DistributedSearchError::InvalidQuery(m)) && m@ == "Query expired"@),
            },
    {
        let now = now_unix_millis();
        self.validate_at(now)
    }

    /// Whether the message is older than 60 seconds at time `now` (Unix milliseconds).
    pub fn is_expired_at(&self, now: u64) -> (r: bool)
        ensures
            r == query_stale(self.timestamp, now),
    {
        is_expired(self.timestamp, now)
    }

    /// Whether the message is older than 60 seconds by the current clock: its staleness at the
    /// time the clock gives (which time that is, only the clock says).
    pub fn is_expired(&self) -> (r: bool)
        ensures
            exists|now: u64| r == #[trigger] query_stale(self.timestamp, now),
    {
        self.is_expired_at(now_unix_millis())
    }
}

/// A query created at `created` (Unix milliseconds) is fresh from then until 60,000 ms have
/// passed, and stale once more than 60,000 ms have passed; a creation time after `now` is never
/// stale.
pub proof fn law_stale_after_a_minute(created: u64, now: u64)
    ensures
        query_stale(created, now) <==> now > created + 60_000,
        !query_stale(created, created),
{
}

} // verus!
