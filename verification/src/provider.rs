//! Content providers: configuration of network retrieval, and the decisions of fetching a
//! block from the providers that the DHT lists.

use vstd::prelude::*;

use std::time::Duration;

use crate::content_id::ContentId;
use crate::error::ContentProviderError;
use crate::search::config::{duration_from_millis, duration_from_secs, duration_nanos};
use crate::service::{parse_switch, switch_on};
use crate::text::str_equals;

verus! {

/// Configuration of network retrieval.
#[derive(Debug, Clone, Copy)]
pub struct NetworkProviderConfig {
    /// Maximum providers tried before giving up (default 3).
    pub max_provider_attempts: usize,
    /// Whether fetched blocks are cached locally (default true).
    pub cache_remote_blocks: bool,
    /// Whether an existence check asks the network when the block is not local (default false).
    pub check_network_for_existence: bool,
    /// Timeout of one peer request (default 30 s).
    pub request_timeout: Duration,
    /// Delay between provider attempts (default 100 ms).
    pub retry_delay: Duration,
}

impl Default for NetworkProviderConfig {
    fn default() -> (r: Self)
        ensures
            r.max_provider_attempts == 3,
            r.cache_remote_blocks,
            !r.check_network_for_existence,
            duration_nanos(r.request_timeout) == 30_000_000_000,
            duration_nanos(r.retry_delay) == 100_000_000,
    {
        NetworkProviderConfig {
            max_provider_attempts: 3,
            cache_remote_blocks: true,
            check_network_for_existence: false,
            request_timeout: duration_from_secs(30),
            retry_delay: duration_from_millis(100),
        }
    }
}

/// Whether an existence-check setting is on: exactly "true" or "1".
pub open spec fn exact_switch_on(value: Option<Seq<char>>) -> bool {
    match value {
        Some(s) => s == "true"@ || s == "1"@,
        None => false,
    }
}

impl NetworkProviderConfig {
    /// The default configuration with local caching off.
    pub fn without_caching() -> (r: Self)
        ensures
            r.max_provider_attempts == 3,
            !r.cache_remote_blocks,
            !r.check_network_for_existence,
            duration_nanos(r.request_timeout) == 30_000_000_000,
            duration_nanos(r.retry_delay) == 100_000_000,
    {
        let mut c = Self::default();
        c.cache_remote_blocks = false;
        c
    }

    /// The configuration `from_env` builds from the variables it read: the switch values
    /// (`None` when unset) and the parsed numbers (`None` when unset or not parsable).
    /// Caching is on unless "false" or "0"; the existence check is on for "true" or "1".
    pub fn from_values(
        max_provider_attempts: Option<usize>,
        cache_remote_blocks: Option<&str>,
        check_network_for_existence: Option<&str>,
        timeout_secs: Option<u64>,
        retry_delay_ms: Option<u64>,
    ) -> (r: Self)
        ensures
            r.max_provider_attempts == match max_provider_attempts { Some(v) => v, None => 3 },
            r.cache_remote_blocks == switch_on(match cache_remote_blocks { Some(s) => Some(s@), None => None }),
            r.check_network_for_existence == exact_switch_on(match check_network_for_existence { Some(s) => Some(s@), None => None }),
            duration_nanos(r.request_timeout) == (match timeout_secs { Some(v) => v, None => 30 }) as nat * 1_000_000_000,
            duration_nanos(r.retry_delay) == (match retry_delay_ms { Some(v) => v, None => 100 }) as nat * 1_000_000,
    {
        let check = match check_network_for_existence {
            Some(s) => str_equals(s, "true") || str_equals(s, "1"),
            None => false,
        };
        NetworkProviderConfig {
            max_provider_attempts: match max_provider_attempts {
                Some(v) => v,
                None => 3,
            },
            cache_remote_blocks: parse_switch(cache_remote_blocks),
            check_network_for_existence: check,
            request_timeout: duration_from_secs(
                match timeout_secs {
                    Some(v) => v,
                    None => 30,
                },
            ),
            retry_delay: duration_from_millis(
                match retry_delay_ms {
                    Some(v) => v,
                    None => 100,
                },
            ),
        }
    }

    /// How many of the listed providers a fetch tries: at most `max_provider_attempts`.
    pub fn attempt_budget(&self, provider_count: usize) -> (r: usize)
        ensures
            r == if self.max_provider_attempts <= provider_count { self.max_provider_attempts } else { provider_count },
    {
        if self.max_provider_attempts <= provider_count {
            self.max_provider_attempts
        } else {
            provider_count
        }
    }
}

/// Whether `pattern` occurs in `text`.
pub open spec fn occurs_in(text: Seq<char>, pattern: Seq<char>) -> bool {
    exists|i: int| 0 <= i && i + pattern.len() <= text.len() && #[trigger] text.subrange(i, i + pattern.len()) == pattern
}

/// Whether `pattern` occurs in `text`.
pub fn contains_text(text: &str, pattern: &str) -> (r: bool)
    ensures
        r == occurs_in(text@, pattern@),
{
    let n = text.unicode_len();
    let m = pattern.unicode_len();
    if m > n {
        proof {
            assert forall|i: int| 0 <= i && i + pattern@.len() <= text@.len() implies #[trigger] text@.subrange(i, i + pattern@.len())
                != pattern@ by {}
        }
        return false;
    }
    let mut i: usize = 0;
    while i <= n - m
        invariant
            n == text@.len(),
            m == pattern@.len(),
            m <= n,
            i <= n - m + 1,
            forall|k: int| 0 <= k < i ==> #[trigger] text@.subrange(k, k + m) != pattern@,
        decreases n - m + 1 - i,
    {
        let mut j: usize = 0;
        let mut same = true;
        while j < m
            invariant
                n == text@.len(),
                m == pattern@.len(),
                i + m <= n,
                j <= m,
                same == (forall|q: int| 0 <= q < j ==> text@[i + q] == pattern@[q]),
            decreases m - j,
        {
            if text.get_char(i + j) != pattern.get_char(j) {
                same = false;
            }
            j = j + 1;
        }
        if same {
            assert(text@.subrange(i as int, i + m) =~= pattern@);
            return true;
        } else {
            assert(text@.subrange(i as int, i + m) != pattern@) by {
                let q = choose|q: int| 0 <= q < m && text@[i + q] != pattern@[q];
                assert(text@.subrange(i as int, i + m)[q] == text@[i + q]);
            }
        }
        i = i + 1;
    }
    false
}

/// Whether `r` is the outcome of a fetch that tried `attempts` providers without getting the
/// block, the last failure (if any) with the message `last_error`: none (the block is reported
/// as not found) when no attempt failed or the last failure said "not found"; otherwise the
/// providers are exhausted.
pub open spec fn is_fetch_failure(r: Option<ContentProviderError>, cid: ContentId, attempts: usize, last_error: Option<Seq<char>>) -> bool {
    match last_error {
        None => r is None,
        Some(msg) => if occurs_in(msg, "not found"@) {
            r is None
        } else {
            r matches Some(ContentProviderError::ProvidersExhausted { cid: c, attempts: a }) && c@ == cid@ && a == attempts
        },
    }
}

/// The error, if any, of a fetch that tried `attempts` providers without getting the block.
pub fn fetch_failure(cid: ContentId, attempts: usize, last_error: Option<&str>) -> (r: Option<ContentProviderError>)
    ensures
        is_fetch_failure(r, cid, attempts, match last_error { Some(m) => Some(m@), None => None }),
{
    match last_error {
        None => None,
        Some(msg) => if contains_text(msg, "not found") {
            None
        } else {
            Some(ContentProviderError::ProvidersExhausted { cid, attempts })
        },
    }
}

/// Whether to wait before the next provider attempt: only between attempts.
pub fn wait_before_next(attempt: usize, attempts: usize) -> (r: bool)
    ensures
        r == (attempt + 1 < attempts),
{
    attempt < attempts && attempt + 1 < attempts
}

/// What a fetch from the network does next.
#[derive(Debug)]
pub enum FetchAction {
    /// Request the block from the provider at this position of the discovered list, after
    /// waiting the retry delay when `wait` is set.
    Request { provider: usize, wait: bool },
    /// The block came: hand it back, after storing it locally when `cache` is set.
    Deliver { cache: bool },
    /// Stop without the block: with this error, or, for `None`, reporting it as not found.
    GiveUp(Option<ContentProviderError>),
}

impl NetworkProviderConfig {
    /// The first step of a fetch once the DHT listed `provider_count` providers: ask the first
    /// of them, or report the block as not found when there is none to try.
    pub fn first_fetch_step(&self, provider_count: usize) -> (r: FetchAction)
        ensures
            if self.max_provider_attempts == 0 || provider_count == 0 {
                r matches FetchAction::GiveUp(None)
            } else {
                r == (FetchAction::Request { provider: 0, wait: false })
            },
    {
        if self.attempt_budget(provider_count) == 0 {
            FetchAction::GiveUp(None)
        } else {
            FetchAction::Request { provider: 0, wait: false }
        }
    }

    /// The step after the request to the provider at position `attempt` answered: `None` when
    /// it delivered the block, or the message of its failure. A delivered block ends the fetch
    /// (cached when the configuration says so); a failure moves on to the next provider within
    /// the budget, after the retry delay, and after the last one gives the fetch's outcome.
    pub fn next_fetch_step(&self, cid: &ContentId, provider_count: usize, attempt: usize, failure: Option<&str>) -> (r: FetchAction)
        requires
            attempt < provider_count,
            attempt < self.max_provider_attempts,
        ensures
            match failure {
                None => r == (FetchAction::Deliver { cache: self.cache_remote_blocks }),
                Some(msg) => if attempt + 1 < self.max_provider_attempts && attempt + 1 < provider_count {
                    r == (FetchAction::Request { provider: (attempt + 1) as usize, wait: true })
                } else {
                    r matches FetchAction::GiveUp(e) && is_fetch_failure(
                        e,
                        *cid,
                        if self.max_provider_attempts <= provider_count { self.max_provider_attempts } else { provider_count },
                        Some(msg@),
                    )
                },
            },
    {
        match failure {
            None => FetchAction::Deliver { cache: self.cache_remote_blocks },
            Some(msg) => {
                let attempts = self.attempt_budget(provider_count);
                if wait_before_next(attempt, attempts) {
                    FetchAction::Request { provider: attempt + 1, wait: true }
                } else {
                    FetchAction::GiveUp(fetch_failure(cid.clone(), attempts, Some(msg)))
                }
            },
        }
    }
}

} // verus!
