use flow_node::search::error::DistributedSearchError;
use flow_node::search::messages::{SearchQueryMessage, UUID_V4_BITS, UUID_V4_MASK};

#[test]
fn test_message_creation() {
    let msg = SearchQueryMessage::new("test query", 20, "12D3KooWTest");

    assert_eq!(msg.query, "test query");
    assert_eq!(msg.limit, 20);
    assert_eq!(msg.requester_peer_id, "12D3KooWTest");
    assert!(msg.timestamp > 0);
}

#[test]
fn test_validation_empty_query() {
    let msg = SearchQueryMessage::new("", 20, "12D3KooWTest");
    assert!(msg.validate().is_err());
}

#[test]
fn test_validation_long_query() {
    let long_query = "a".repeat(1001);
    let msg = SearchQueryMessage::new(&long_query, 20, "12D3KooWTest");
    assert!(msg.validate().is_err());
}

#[test]
fn test_validation_zero_limit() {
    let msg = SearchQueryMessage::new("test", 0, "12D3KooWTest");
    assert!(msg.validate().is_err());
}

#[test]
fn test_validation_high_limit() {
    let msg = SearchQueryMessage::new("test", 101, "12D3KooWTest");
    assert!(msg.validate().is_err());
}

#[test]
fn test_validation_valid() {
    let msg = SearchQueryMessage::new("test query", 20, "12D3KooWTest");
    assert!(msg.validate().is_ok());
}

#[test]
fn test_expired_message() {
    let mut msg = SearchQueryMessage::new("test", 20, "12D3KooWTest");
    msg.timestamp = 0;

    assert!(msg.is_expired());
    assert!(msg.validate().is_err());
}

#[test]
fn test_fresh_message() {
    let msg = SearchQueryMessage::new("test", 20, "12D3KooWTest");
    assert!(!msg.is_expired());
}

#[test]
fn fresh_identifiers_are_version_four() {
    let a = SearchQueryMessage::new("q", 1, "p");
    let b = SearchQueryMessage::new("q", 1, "p");
    assert_eq!(a.query_id & UUID_V4_MASK, UUID_V4_BITS);
    assert_ne!(a.query_id, b.query_id);
}

#[test]
fn validation_at_a_given_time() {
    let msg = SearchQueryMessage::with_id(7, "query", 10, "peer");
    let t = msg.timestamp;
    assert!(msg.validate_at(t + 60_000).is_ok());
    match msg.validate_at(t + 60_001) {
        Err(DistributedSearchError::InvalidQuery(m)) => assert_eq!(m, "Query expired"),
        other => panic!("unexpected {:?}", other),
    }
    assert!(!msg.is_expired_at(t + 60_000));
    assert!(msg.is_expired_at(t + 60_001));
    let long = SearchQueryMessage::with_id(7, &"b".repeat(1001), 10, "peer");
    match long.validate_at(0) {
        Err(DistributedSearchError::InvalidQuery(m)) => assert_eq!(m, "Query too long (max 1000 chars)"),
        other => panic!("unexpected {:?}", other),
    }
}
