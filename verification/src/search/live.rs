//! Collecting the answers of peers to a live query: wait while the deadline has not passed and
//! fewer peers than asked have answered; stop at the deadline or when the channel closes.

use vstd::prelude::*;

verus! {

/// How long after a query started an answer is still delivered to it, in milliseconds.
pub const DELIVERY_WINDOW_MS: u64 = 5000;

/// Whether an answer to a query is delivered: the query is still pending and started less than
/// five seconds ago.
pub fn accepts_answer(pending: bool, age_ms: u64) -> (r: bool)
    ensures
        r == (pending && age_ms < DELIVERY_WINDOW_MS),
{
    pending && age_ms < DELIVERY_WINDOW_MS
}

/// The state of collecting answers to one live query.
#[derive(Debug, Clone, Copy)]
pub struct LiveCollection {
    peer_count: u32,
    deadline_ms: u128,
    responded: u32,
    stopped: bool,
}

impl View for LiveCollection {
    type V = (u32, u128, u32, bool);

    closed spec fn view(&self) -> (u32, u128, u32, bool) {
        (self.peer_count, self.deadline_ms, self.responded, self.stopped)
    }
}

impl LiveCollection {
    #[verifier::type_invariant]
    spec fn inv(self) -> bool {
        self.responded <= self.peer_count
    }

    /// Collection for a query to `peer_count` peers, started at `now_ms` with a timeout of
    /// `timeout_ms`: nobody has answered yet.
    pub fn start(peer_count: u32, now_ms: u64, timeout_ms: u64) -> (r: Self)
        ensures
            r@ == (peer_count, (now_ms + timeout_ms) as u128, 0u32, false),
    {
        LiveCollection { peer_count, deadline_ms: now_ms as u128 + timeout_ms as u128, responded: 0, stopped: false }
    }

    /// How long to wait for the next answer at `now_ms`: until the deadline, while the
    /// collection has not stopped and fewer peers than asked have answered; `None` when done.
    pub fn wait_time(&self, now_ms: u64) -> (r: Option<u128>)
        ensures
            r == (if !self@.3 && (now_ms as u128) < self@.1 && self@.2 < self@.0 {
                Some((self@.1 - now_ms) as u128)
            } else {
                None::<u128>
            }),
    {
        if !self.stopped && (now_ms as u128) < self.deadline_ms && self.responded < self.peer_count {
            Some(self.deadline_ms - now_ms as u128)
        } else {
            None
        }
    }

    /// A peer answered: one more answer, as long as fewer than the asked peers had answered.
    pub fn on_answer(&mut self)
        ensures
            final(self)@ == (old(self)@.0, old(self)@.1, if old(self)@.2 < old(self)@.0 {
                (old(self)@.2 + 1) as u32
            } else {
                old(self)@.2
            }, old(self)@.3),
    {
        proof {
            use_type_invariant(&*self);
        }
        if self.responded < self.peer_count {
            self.responded = self.responded + 1;
        }
    }

    /// The channel closed or the deadline passed: collection stops.
    pub fn stop(&mut self)
        ensures
            final(self)@ == (old(self)@.0, old(self)@.1, old(self)@.2, true),
    {
        proof {
            use_type_invariant(&*self);
        }
        self.stopped = true;
    }

    /// How many peers answered; never more than were asked.
    pub fn responded(&self) -> (r: u32)
        ensures
            r == self@.2,
            r <= self@.0,
    {
        proof {
            use_type_invariant(self);
        }
        self.responded
    }
}

} // verus!
