use std::time::Duration;

use flow_node::content_id::ContentId;
use flow_node::error::ContentProviderError;
use flow_node::provider::{contains_text, fetch_failure, wait_before_next, FetchAction, NetworkProviderConfig};

#[test]
fn test_network_provider_config_default() {
    let config = NetworkProviderConfig::default();
    assert_eq!(config.max_provider_attempts, 3);
    assert!(config.cache_remote_blocks);
    assert!(!config.check_network_for_existence);
    assert_eq!(config.request_timeout, Duration::from_secs(30));
    assert_eq!(config.retry_delay, Duration::from_millis(100));
}

#[test]
fn test_network_provider_config_without_caching() {
    let config = NetworkProviderConfig::without_caching();
    assert!(!config.cache_remote_blocks);
}

#[test]
fn network_provider_config_from_values() {
    let c = NetworkProviderConfig::from_values(Some(5), Some("0"), Some("1"), Some(2), Some(7));
    assert_eq!(c.max_provider_attempts, 5);
    assert!(!c.cache_remote_blocks);
    assert!(c.check_network_for_existence);
    assert_eq!(c.request_timeout, Duration::from_secs(2));
    assert_eq!(c.retry_delay, Duration::from_millis(7));
    let c = NetworkProviderConfig::from_values(None, None, Some("TRUE"), None, None);
    assert_eq!(c.max_provider_attempts, 3);
    assert!(c.cache_remote_blocks);
    assert!(!c.check_network_for_existence);
}

#[test]
fn attempt_budget_is_the_smaller() {
    let c = NetworkProviderConfig::default();
    assert_eq!(c.attempt_budget(10), 3);
    assert_eq!(c.attempt_budget(2), 2);
    assert_eq!(c.attempt_budget(0), 0);
}

#[test]
fn text_search() {
    assert!(contains_text("block not found here", "not found"));
    assert!(!contains_text("not foun", "not found"));
    assert!(contains_text("abc", ""));
    assert!(contains_text("abc", "abc"));
    assert!(!contains_text("abc", "abd"));
}

#[test]
fn fetch_failure_outcomes() {
    let cid = ContentId::from_bytes(b"x");
    assert!(fetch_failure(cid.clone(), 0, None).is_none());
    assert!(fetch_failure(cid.clone(), 2, Some("peer said: not found")).is_none());
    match fetch_failure(cid.clone(), 2, Some("timeout")) {
        Some(ContentProviderError::ProvidersExhausted { cid: c, attempts }) => {
            assert_eq!(c, cid);
            assert_eq!(attempts, 2);
        }
        _ => panic!("expected exhausted providers"),
    }
}

#[test]
fn waits_only_between_attempts() {
    assert!(wait_before_next(0, 3));
    assert!(wait_before_next(1, 3));
    assert!(!wait_before_next(2, 3));
    assert!(!wait_before_next(0, 1));
}

#[test]
fn fetch_starts_at_first_provider_or_gives_up() {
    let c = NetworkProviderConfig::default();
    assert!(matches!(c.first_fetch_step(0), FetchAction::GiveUp(None)));
    assert!(matches!(c.first_fetch_step(4), FetchAction::Request { provider: 0, wait: false }));
    let none = NetworkProviderConfig::from_values(Some(0), None, None, None, None);
    assert!(matches!(none.first_fetch_step(4), FetchAction::GiveUp(None)));
}

#[test]
fn fetch_stops_at_first_delivery() {
    let cid = ContentId::from_bytes(b"y");
    let c = NetworkProviderConfig::default();
    assert!(matches!(c.next_fetch_step(&cid, 5, 1, None), FetchAction::Deliver { cache: true }));
    let uncached = NetworkProviderConfig::without_caching();
    assert!(matches!(uncached.next_fetch_step(&cid, 5, 0, None), FetchAction::Deliver { cache: false }));
}

#[test]
fn fetch_moves_on_after_failure_within_budget() {
    let cid = ContentId::from_bytes(b"y");
    let c = NetworkProviderConfig::default();
    assert!(matches!(c.next_fetch_step(&cid, 5, 0, Some("timeout")), FetchAction::Request { provider: 1, wait: true }));
    assert!(matches!(c.next_fetch_step(&cid, 5, 1, Some("timeout")), FetchAction::Request { provider: 2, wait: true }));
    match c.next_fetch_step(&cid, 5, 2, Some("timeout")) {
        FetchAction::GiveUp(Some(ContentProviderError::ProvidersExhausted { cid: got, attempts })) => {
            assert_eq!(got, cid);
            assert_eq!(attempts, 3);
        }
        other => panic!("unexpected step {:?}", other),
    }
    match c.next_fetch_step(&cid, 2, 1, Some("connection reset")) {
        FetchAction::GiveUp(Some(ContentProviderError::ProvidersExhausted { attempts, .. })) => assert_eq!(attempts, 2),
        other => panic!("unexpected step {:?}", other),
    }
    assert!(matches!(c.next_fetch_step(&cid, 2, 1, Some("block not found")), FetchAction::GiveUp(None)));
}
