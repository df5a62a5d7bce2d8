//! Small records of the node: provided-content bookkeeping, authentication claims and
//! knowledge-graph edges.

use vstd::prelude::*;

use std::time::SystemTime;

use crate::content_id::{cid_text, ContentId};

verus! {

#[verifier::external_type_specification]
#[verifier::external_body]
pub struct ExSystemTime(std::time::SystemTime);

/// The current time, by `SystemTime::now`. Nothing is stated of it: it is the machine's clock.
#[verifier::external_body]
fn system_now() -> (r: SystemTime) {
    SystemTime::now()
}

/// `SystemTime::clone`; nothing is stated of the copy.
pub assume_specification[ <std::time::SystemTime as std::clone::Clone>::clone ](t: &SystemTime) -> SystemTime;

/// Bookkeeping of a content identifier this node provides to the DHT.
#[derive(Debug, Clone)]
pub struct ProvidedCidMetadata {
    /// The identifier's text form.
    pub cid_string: String,
    /// When the identifier was first provided.
    pub first_provided: SystemTime,
    /// When the identifier was last announced successfully.
    pub last_announced: Option<SystemTime>,
    /// Number of successful announcements.
    pub announcement_count: u64,
}

impl ProvidedCidMetadata {
    /// Bookkeeping of a freshly provided identifier: never announced yet.
    pub fn new(cid: &ContentId) -> (r: Self)
        ensures
            r.cid_string@ == cid_text(cid@.0, cid@.1, cid@.2, cid@.3),
            r.last_announced is None,
            r.announcement_count == 0,
    {
        ProvidedCidMetadata { cid_string: cid.to_cid_string(), first_provided: system_now(), last_announced: None, announcement_count: 0 }
    }

    /// Records a successful announcement: one more, just now.
    pub fn record_announcement(&mut self)
        requires
            old(self).announcement_count < u64::MAX,
        ensures
            final(self).cid_string == old(self).cid_string,
            final(self).first_provided == old(self).first_provided,
            final(self).last_announced is Some,
            final(self).announcement_count == old(self).announcement_count + 1,
    {
        self.last_announced = Some(system_now());
        self.announcement_count = self.announcement_count + 1;
    }
}

/// Claims of an authentication token.
#[derive(Debug, Clone)]
pub struct Claims {
    /// Subject (the DID).
    pub sub: String,
    /// The DID.
    pub did: String,
    /// The device identifier.
    pub device_id: String,
    /// Issue time (Unix seconds).
    pub iat: i64,
    /// Expiry time (Unix seconds).
    pub exp: i64,
}

impl Claims {
    /// The claims of a token for a DID and device, issued at `now` (Unix seconds) and valid
    /// for `expiry_hours` hours (a span that a time delta can hold, ending at a representable
    /// time).
    pub fn issued_at(did: &str, device_id: &str, now: i64, expiry_hours: i64) -> (r: Self)
        requires
            -(i64::MAX / 1000) <= expiry_hours * 3600 <= i64::MAX / 1000,
            i64::MIN <= now + expiry_hours * 3600 <= i64::MAX,
        ensures
            r.sub@ == did@,
            r.did@ == did@,
            r.device_id@ == device_id@,
            r.iat == now,
            r.exp == now + expiry_hours * 3600,
    {
        Claims { sub: did.to_owned(), did: did.to_owned(), device_id: device_id.to_owned(), iat: now, exp: now + expiry_hours * 3600 }
    }
}

/// Direction of a knowledge-graph edge.
#[derive(Debug, Clone, Copy, PartialEq, Eq, Structural)]
pub enum EdgeDirection {
    /// From the entity.
    Outgoing,
    /// To the entity.
    Incoming,
}

/// A knowledge-graph edge, seen from one entity.
#[derive(Debug, Clone)]
pub struct Edge {
    /// Edge identifier.
    pub id: i32,
    /// Edge type.
    pub edge_type: String,
    /// The entity at the other end.
    pub other_id: i32,
    /// Direction, seen from the entity.
    pub direction: EdgeDirection,
}

} // verus!
