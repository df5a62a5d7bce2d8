use flow_node::search::cache::{cache_key, hex_encode};
use flow_node::search::handler::plan_answer;
use flow_node::search::handler::{handler_stats, ResultAggregator};
use flow_node::search::handler::{is_expired, validate_query_message};
use sha2::Digest;
use std::time::Duration;

use flow_node::search::config::SearchConfig;
use flow_node::search::error::{DistributedSearchError, RequestValidator};
use flow_node::search::federated::{
    count_sources, is_space_collection, register_collection, remove_collection, space_collections,
    ResultSource as FederatedSource, SearchScope,
};
use flow_node::search::types::{DistributedSearchRequest, DistributedSearchScope, ResultSource};

#[test]
fn test_default_config() {
    let config = SearchConfig::default();

    assert!(!config.respond_to_queries);
    assert_eq!(config.max_results_per_query, 20);
    assert_eq!(config.peer_count, 15);
    assert_eq!(config.network_timeout_ms, 500);
    assert!(config.retry_enabled);
    assert_eq!(config.cache_ttl_secs, 15);
    assert_eq!(config.cache_max_entries, 1000);
}

#[test]
fn test_config_builder() {
    let config = SearchConfig::new()
        .with_respond_to_queries(true)
        .with_max_results(50)
        .with_peer_count(20)
        .with_timeout_ms(1000)
        .with_retry(false)
        .with_cache_ttl_secs(30)
        .with_cache_size(500);

    assert!(config.respond_to_queries);
    assert_eq!(config.max_results_per_query, 50);
    assert_eq!(config.peer_count, 20);
    assert_eq!(config.network_timeout_ms, 1000);
    assert!(!config.retry_enabled);
    assert_eq!(config.cache_ttl_secs, 30);
    assert_eq!(config.cache_max_entries, 500);
}

#[test]
fn test_duration_methods() {
    let config = SearchConfig::new()
        .with_timeout(Duration::from_millis(750))
        .with_cache_ttl(Duration::from_secs(60));

    assert_eq!(config.network_timeout(), Duration::from_millis(750));
    assert_eq!(config.cache_ttl(), Duration::from_secs(60));
}

#[test]
fn config_from_values_flags_and_numbers() {
    let c = SearchConfig::from_values(Some("TRUE"), Some(5), None, Some(42), Some("no"), None, Some(9));
    assert!(c.respond_to_queries);
    assert_eq!(c.max_results_per_query, 5);
    assert_eq!(c.peer_count, 15);
    assert_eq!(c.network_timeout_ms, 42);
    assert!(!c.retry_enabled);
    assert_eq!(c.cache_ttl_secs, 15);
    assert_eq!(c.cache_max_entries, 9);
    assert_eq!(SearchConfig::from_values(None, None, None, None, None, None, None), SearchConfig::default());
}

#[test]
fn sub_millisecond_timeouts_are_cut() {
    let config = SearchConfig::new().with_timeout(Duration::from_micros(1500));
    assert_eq!(config.network_timeout_ms, 1);
}

#[test]
fn test_error_status_codes() {
    assert_eq!(DistributedSearchError::invalid_query("test").http_status(), 400);
    assert_eq!(DistributedSearchError::NoPeersAvailable.http_status(), 503);
    assert_eq!(DistributedSearchError::Timeout.http_status(), 504);
    assert_eq!(DistributedSearchError::internal("test").http_status(), 500);
}

#[test]
fn test_error_codes() {
    assert_eq!(DistributedSearchError::invalid_query("test").error_code(), "INVALID_QUERY");
    assert_eq!(DistributedSearchError::NoPeersAvailable.error_code(), "NETWORK_UNAVAILABLE");
}

#[test]
fn test_validate_query() {
    assert!(RequestValidator::validate_query("").is_err());
    assert!(RequestValidator::validate_query("test query").is_ok());
    let long_query = "a".repeat(1001);
    assert!(RequestValidator::validate_query(&long_query).is_err());
    let max_query = "a".repeat(1000);
    assert!(RequestValidator::validate_query(&max_query).is_ok());
}

#[test]
fn test_validate_limit() {
    assert!(RequestValidator::validate_limit(0).is_err());
    assert!(RequestValidator::validate_limit(1).is_ok());
    assert!(RequestValidator::validate_limit(50).is_ok());
    assert!(RequestValidator::validate_limit(100).is_ok());
    assert!(RequestValidator::validate_limit(101).is_err());
}

#[test]
fn test_validate_request() {
    assert!(RequestValidator::validate("test", 10).is_ok());
    assert!(RequestValidator::validate("", 10).is_err());
    assert!(RequestValidator::validate("test", 0).is_err());
}

#[test]
fn validation_messages() {
    match RequestValidator::validate_query(&"é".repeat(501)) {
        Err(DistributedSearchError::Validation(m)) => assert_eq!(m, "Query too long: 1002 chars (max 1000)"),
        _ => panic!("expected a validation error"),
    }
    match RequestValidator::validate_limit(250) {
        Err(DistributedSearchError::Validation(m)) => assert_eq!(m, "Limit too high: 250 (max 100)"),
        _ => panic!("expected a validation error"),
    }
    match RequestValidator::validate("", 0) {
        Err(DistributedSearchError::Validation(m)) => assert_eq!(m, "Query cannot be empty"),
        _ => panic!("expected a validation error"),
    }
}

#[test]
fn types_test_search_scope_default() {
    let scope = DistributedSearchScope::default();
    assert_eq!(scope, DistributedSearchScope::All);
}

#[test]
fn test_search_scope_includes() {
    assert!(DistributedSearchScope::Local.includes_local());
    assert!(!DistributedSearchScope::Local.includes_network());

    assert!(!DistributedSearchScope::Network.includes_local());
    assert!(DistributedSearchScope::Network.includes_network());

    assert!(DistributedSearchScope::All.includes_local());
    assert!(DistributedSearchScope::All.includes_network());
}

#[test]
fn test_search_request_builder() {
    let request = DistributedSearchRequest::new("test query")
        .with_scope(DistributedSearchScope::Local)
        .with_limit(20);

    assert_eq!(request.query, "test query");
    assert_eq!(request.scope, DistributedSearchScope::Local);
    assert_eq!(request.limit, 20);
}

#[test]
fn test_search_request_defaults() {
    let request = DistributedSearchRequest::new("test");

    assert_eq!(request.scope, DistributedSearchScope::All);
    assert_eq!(request.limit, 10);
}

#[test]
fn test_result_source() {
    assert!(ResultSource::Local.is_local());
    assert!(!ResultSource::Local.is_network());

    assert!(!ResultSource::Network.is_local());
    assert!(ResultSource::Network.is_network());
}

#[test]
fn scope_and_source_names() {
    assert_eq!(DistributedSearchScope::Local.as_str(), "local");
    assert_eq!(DistributedSearchScope::Network.as_str(), "network");
    assert_eq!(DistributedSearchScope::All.as_str(), "all");
    assert_eq!(ResultSource::Local.as_str(), "local");
    assert_eq!(ResultSource::Network.as_str(), "network");
}

#[test]
fn federated_search_test_search_scope_default() {
    let scope = SearchScope::default();
    assert_eq!(scope, SearchScope::All);
}

#[test]
fn federated_scope_coverage() {
    assert!(SearchScope::Local.searches_local());
    assert!(!SearchScope::Local.searches_remote());
    assert!(!SearchScope::Remote.searches_local());
    assert!(SearchScope::Remote.searches_remote());
    assert!(SearchScope::All.searches_local() && SearchScope::All.searches_remote());
}

#[test]
fn space_collection_names() {
    assert!(is_space_collection("space-abc-idx"));
    assert!(is_space_collection("space-idx"));
    assert!(!is_space_collection("space-abc"));
    assert!(!is_space_collection("remote-content-idx"));
    assert!(!is_space_collection("spac"));
    let names = vec!["space-a-idx".to_string(), "other".to_string(), "space-b-idx".to_string()];
    assert_eq!(space_collections(&names), vec!["space-a-idx".to_string(), "space-b-idx".to_string()]);
}

#[test]
fn collection_registration() {
    let mut cols = Vec::new();
    register_collection(&mut cols, "space-a-idx".to_string());
    register_collection(&mut cols, "space-b-idx".to_string());
    register_collection(&mut cols, "space-a-idx".to_string());
    assert_eq!(cols, vec!["space-a-idx".to_string(), "space-b-idx".to_string()]);
    remove_collection(&mut cols, "space-a-idx");
    assert_eq!(cols, vec!["space-b-idx".to_string()]);
}

#[test]
fn source_counts() {
    let sources = [FederatedSource::Local, FederatedSource::Remote, FederatedSource::Local];
    assert_eq!(count_sources(&sources), (2, 1));
    assert_eq!(count_sources(&[]), (0, 0));
}

#[test]
fn cache_key_generation() {
    let key1 = cache_key("test query", "all", 10);
    let key2 = cache_key("test query", "all", 10);
    let key3 = cache_key("different query", "all", 10);
    let key4 = cache_key("test query", "local", 10);
    let key5 = cache_key("test query", "all", 20);
    assert_eq!(key1, key2);
    assert_ne!(key1, key3);
    assert_ne!(key1, key4);
    assert_ne!(key1, key5);
    assert_eq!(key1.len(), 32);
    assert!(key1.chars().all(|c| c.is_ascii_hexdigit() && !c.is_ascii_uppercase()));
}

#[test]
fn cache_key_matches_sha256_prefix() {
    let mut input = b"q".to_vec();
    input.extend_from_slice(b"all");
    input.extend_from_slice(&7u32.to_le_bytes());
    let digest = sha2::Sha256::digest(&input);
    assert_eq!(cache_key("q", "all", 7), hex::encode(&digest[..16]));
    assert_eq!(hex_encode(&[0x00, 0xab, 0xff]), "00abff");
}

#[test]
fn incoming_query_validation() {
    let now = 1_000_000;
    assert!(validate_query_message("q", 10, now, now).is_ok());
    let msg = |r: Result<(), DistributedSearchError>| match r {
        Err(DistributedSearchError::InvalidQuery(m)) => m,
        _ => panic!("expected an invalid query"),
    };
    assert_eq!(msg(validate_query_message("", 10, now, now)), "Query cannot be empty");
    assert_eq!(msg(validate_query_message(&"a".repeat(1001), 10, now, now)), "Query too long (max 1000 chars)");
    assert_eq!(msg(validate_query_message("q", 0, now, now)), "Limit must be greater than 0");
    assert_eq!(msg(validate_query_message("q", 101, now, now)), "Limit too high (max 100)");
    assert_eq!(msg(validate_query_message("q", 10, now - 60_001, now)), "Query expired");
    assert!(validate_query_message("q", 10, now - 60_000, now).is_ok());
    assert!(!is_expired(0, 59_000));
}

#[test]
fn answering_plan() {
    let now = 5_000_000;
    let off = SearchConfig::new();
    assert_eq!(plan_answer(&off, "me", "q", 10, "peer", now, now), None);
    let on = SearchConfig::new().with_respond_to_queries(true).with_max_results(5);
    assert_eq!(plan_answer(&on, "me", "q", 10, "peer", now, now), Some(5));
    assert_eq!(plan_answer(&on, "me", "q", 3, "peer", now, now), Some(3));
    assert_eq!(plan_answer(&on, "me", "q", 3, "me", now, now), None);
    assert_eq!(plan_answer(&on, "me", "", 3, "peer", now, now), None);
}

#[test]
fn aggregator_settings() {
    let a = ResultAggregator::new();
    assert!(a.applies_penalties() && a.applies_boost());
    let a = ResultAggregator::new().without_penalties();
    assert!(!a.applies_penalties() && a.applies_boost());
    let a = ResultAggregator::default().without_boost();
    assert!(a.applies_penalties() && !a.applies_boost());
    let stats = handler_stats(&SearchConfig::new().with_respond_to_queries(true));
    assert!(stats.responding);
    assert_eq!(stats.max_results, 20);
}

#[test]
fn test_cache_key_generation() {
    let key1 = cache_key("test query", "all", 10);
    let key2 = cache_key("test query", "all", 10);
    let key3 = cache_key("different query", "all", 10);
    let key4 = cache_key("test query", "local", 10);
    let key5 = cache_key("test query", "all", 20);

    assert_eq!(key1, key2);

    assert_ne!(key1, key3);
    assert_ne!(key1, key4);
    assert_ne!(key1, key5);

    assert_eq!(key1.len(), 32);
}

#[test]
fn search_plan_orders_local_then_remote() {
    let local = vec!["space-a-idx".to_string(), "space-b-idx".to_string()];
    let all = flow_node::search::federated::search_plan(SearchScope::All, &local);
    assert_eq!(all.len(), 3);
    assert_eq!(all[0], ("space-a-idx".to_string(), FederatedSource::Local));
    assert_eq!(all[1], ("space-b-idx".to_string(), FederatedSource::Local));
    assert_eq!(all[2], ("remote-content-idx".to_string(), FederatedSource::Remote));
    let only_local = flow_node::search::federated::search_plan(SearchScope::Local, &local);
    assert_eq!(only_local.len(), 2);
    let only_remote = flow_node::search::federated::search_plan(SearchScope::Remote, &local);
    assert_eq!(only_remote, vec![("remote-content-idx".to_string(), FederatedSource::Remote)]);
    assert!(flow_node::search::federated::needs_discovery(SearchScope::All, 0));
    assert!(!flow_node::search::federated::needs_discovery(SearchScope::Remote, 0));
    assert!(!flow_node::search::federated::needs_discovery(SearchScope::Local, 1));
}

#[test]
fn grouping_keeps_first_appearance_order() {
    let keys: Vec<String> = ["b", "a", "b", "c", "a", "b"].iter().map(|s| s.to_string()).collect();
    let groups = flow_node::search::ranking::group_by_key(&keys);
    assert_eq!(groups, vec![vec![0, 2, 5], vec![1, 4], vec![3]]);
    assert!(flow_node::search::ranking::group_by_key(&Vec::new()).is_empty());
}

#[test]
fn group_source_prefers_local() {
    assert_eq!(flow_node::search::ranking::group_source(&[ResultSource::Network, ResultSource::Local]), ResultSource::Local);
    assert_eq!(flow_node::search::ranking::group_source(&[ResultSource::Network]), ResultSource::Network);
    assert_eq!(flow_node::search::ranking::group_source(&[]), ResultSource::Network);
}

#[test]
fn overflow_counts_cut_results() {
    assert_eq!(flow_node::search::ranking::overflow_count(15, 10), 5);
    assert_eq!(flow_node::search::ranking::overflow_count(10, 10), 0);
    assert_eq!(flow_node::search::ranking::overflow_count(3, 10), 0);
}

#[test]
fn search_plans_by_scope() {
    let config = SearchConfig::default().with_peer_count(3).with_timeout_ms(100);
    let local = flow_node::search::orchestration::search_plan(DistributedSearchScope::Local, &config);
    assert!(local.run_local && !local.run_prefetch && !local.run_live);
    assert_eq!(local.local_timeout_ms, None);
    assert_eq!(local.peers_queried, 0);
    let network = flow_node::search::orchestration::search_plan(DistributedSearchScope::Network, &config);
    assert!(!network.run_local && network.run_prefetch && network.run_live);
    assert_eq!(network.network_timeout_ms, 300);
    assert_eq!(network.peers_queried, 3);
    let all = flow_node::search::orchestration::search_plan(DistributedSearchScope::All, &config);
    assert!(all.run_local && all.run_prefetch && all.run_live);
    assert_eq!(all.local_timeout_ms, Some(200));
    assert_eq!(all.peers_queried, 3);
}

#[test]
fn outcomes_merge_in_order() {
    let (all, responded) = flow_node::search::orchestration::merge_outcomes(Some(vec![1, 2]), None, Some((vec![5], 4)));
    assert_eq!(all, vec![1, 2, 5]);
    assert_eq!(responded, 4);
    let (none, zero) = flow_node::search::orchestration::merge_outcomes::<u8>(None, Some(vec![7]), None);
    assert_eq!(none, vec![7]);
    assert_eq!(zero, 0);
}

#[test]
fn live_collection_waits_until_deadline_or_all_answers() {
    let mut c = flow_node::search::live::LiveCollection::start(2, 1_000, 100);
    assert_eq!(c.wait_time(1_000), Some(100));
    assert_eq!(c.wait_time(1_060), Some(40));
    c.on_answer();
    assert_eq!(c.responded(), 1);
    assert_eq!(c.wait_time(1_060), Some(40));
    c.on_answer();
    assert_eq!(c.responded(), 2);
    assert_eq!(c.wait_time(1_060), None);
    c.on_answer();
    assert_eq!(c.responded(), 2);
}

#[test]
fn live_collection_stops_at_deadline_and_on_close() {
    let c = flow_node::search::live::LiveCollection::start(5, 1_000, 100);
    assert_eq!(c.wait_time(1_100), None);
    let mut d = flow_node::search::live::LiveCollection::start(5, 0, 100);
    d.stop();
    assert_eq!(d.wait_time(0), None);
    assert_eq!(d.responded(), 0);
}

#[test]
fn answers_are_delivered_within_five_seconds() {
    assert!(flow_node::search::live::accepts_answer(true, 4_999));
    assert!(!flow_node::search::live::accepts_answer(true, 5_000));
    assert!(!flow_node::search::live::accepts_answer(false, 0));
}

#[test]
fn cache_counters_count_fresh_hits_and_misses() {
    let mut c = flow_node::search::cache::CacheCounters::new(15_000);
    assert!(c.record_lookup(Some(10)));
    assert!(!c.record_lookup(Some(15_000)));
    assert!(!c.record_lookup(None));
    assert_eq!((c.hits, c.misses), (1, 2));
    let stats = c.stats(4);
    assert_eq!((stats.entries, stats.hits, stats.misses, stats.ttl_secs), (4, 1, 2, 15));
    c.reset();
    assert_eq!((c.hits, c.misses, c.ttl_ms), (0, 0, 15_000));
}

#[test]
fn point_cid_prefers_the_payload_path() {
    assert_eq!(flow_node::search::federated::point_cid(5, Some("bafyexample")), "bafyexample");
    assert_eq!(flow_node::search::federated::point_cid(5, None), "point-5");
    assert_eq!(flow_node::search::federated::point_cid(1234567890, None), "point-1234567890");
    assert_eq!(flow_node::search::federated::point_cid(0, None), "point-0");
}
