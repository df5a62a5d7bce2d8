//! What a distributed search runs for each scope, and how the outcomes of its parts are put
//! together: local search, the prefetched network index, and a live query of peers.

use vstd::prelude::*;

use crate::search::config::SearchConfig;
use crate::search::types::DistributedSearchScope;

verus! {

/// How long the local part of a search that also reaches the network may take, in milliseconds.
pub const LOCAL_TIMEOUT_MS: u64 = 200;

/// The grace added to the network timeout for network parts, in milliseconds.
pub const NETWORK_GRACE_MS: u64 = 200;

/// The parts a search runs, their time limits, and the peers it queries.
#[derive(Debug, Clone, Copy, PartialEq, Eq, Structural)]
pub struct SearchPlan {
    /// Whether local collections are searched.
    pub run_local: bool,
    /// Whether the prefetched network index is searched.
    pub run_prefetch: bool,
    /// Whether peers are queried live.
    pub run_live: bool,
    /// Time limit of the local part in milliseconds, if it has one.
    pub local_timeout_ms: Option<u64>,
    /// Time limit of each network part in milliseconds.
    pub network_timeout_ms: u128,
    /// Number of peers reported as queried.
    pub peers_queried: u32,
}

/// The plan of a search in `scope`: local only runs the local search without a time limit;
/// network only runs the prefetched index and the live query; all runs the three, the local
/// part limited to 200 ms. Network parts may take the network timeout plus 200 ms, and the
/// configured peer count is reported as queried when the network is reached.
pub open spec fn plan_of(scope: DistributedSearchScope, config: SearchConfig) -> SearchPlan {
    match scope {
        DistributedSearchScope::Local => SearchPlan {
            run_local: true,
            run_prefetch: false,
            run_live: false,
            local_timeout_ms: None,
            network_timeout_ms: (config.network_timeout_ms + 200) as u128,
            peers_queried: 0,
        },
        DistributedSearchScope::Network => SearchPlan {
            run_local: false,
            run_prefetch: true,
            run_live: true,
            local_timeout_ms: None,
            network_timeout_ms: (config.network_timeout_ms + 200) as u128,
            peers_queried: config.peer_count,
        },
        DistributedSearchScope::All => SearchPlan {
            run_local: true,
            run_prefetch: true,
            run_live: true,
            local_timeout_ms: Some(200),
            network_timeout_ms: (config.network_timeout_ms + 200) as u128,
            peers_queried: config.peer_count,
        },
    }
}

/// The plan of a search in `scope` under `config`.
pub fn search_plan(scope: DistributedSearchScope, config: &SearchConfig) -> (r: SearchPlan)
    ensures
        r == plan_of(scope, *config),
{
    let network_timeout_ms = config.network_timeout_ms as u128 + NETWORK_GRACE_MS as u128;
    match scope {
        DistributedSearchScope::Local => SearchPlan {
            run_local: true,
            run_prefetch: false,
            run_live: false,
            local_timeout_ms: None,
            network_timeout_ms,
            peers_queried: 0,
        },
        DistributedSearchScope::Network => SearchPlan {
            run_local: false,
            run_prefetch: true,
            run_live: true,
            local_timeout_ms: None,
            network_timeout_ms,
            peers_queried: config.peer_count,
        },
        DistributedSearchScope::All => SearchPlan {
            run_local: true,
            run_prefetch: true,
            run_live: true,
            local_timeout_ms: Some(LOCAL_TIMEOUT_MS),
            network_timeout_ms,
            peers_queried: config.peer_count,
        },
    }
}

/// The results a part contributes: its results when it finished in time, none otherwise.
pub open spec fn contributed<T>(outcome: Option<Vec<T>>) -> Seq<T> {
    match outcome {
        Some(v) => v@,
        None => Seq::empty(),
    }
}

/// Puts together the outcomes of a search's parts (`None` for a part that failed, timed out
/// or did not run): the results of local search, then of the prefetched index, then of the
/// live query; and the number of peers that answered the live query (0 without its result).
pub fn merge_outcomes<T>(local: Option<Vec<T>>, prefetch: Option<Vec<T>>, live: Option<(Vec<T>, u32)>) -> (r: (
    Vec<T>,
    u32,
))
    ensures
        r.0@ == contributed(local) + contributed(prefetch) + match live {
            Some(l) => l.0@,
            None => Seq::empty(),
        },
        r.1 == match live {
            Some(l) => l.1,
            None => 0,
        },
{
    let mut all: Vec<T> = Vec::new();
    match local {
        Some(mut v) => all.append(&mut v),
        None => {},
    }
    match prefetch {
        Some(mut v) => all.append(&mut v),
        None => {},
    }
    let mut responded: u32 = 0;
    match live {
        Some((mut v, n)) => {
            all.append(&mut v);
            responded = n;
        },
        None => {},
    }
    (all, responded)
}

} // verus!
