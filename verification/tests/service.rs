use flow_node::chunking::ChunkingAlgorithm;
use flow_node::manifest::DocumentManifest;
use flow_node::service::{
    gossip_fields, parse_switch, AnnouncementOutcome, AnnouncementResult, ContentServiceConfig,
    PublishStats,
};
use flow_node::chunking::config::ChunkingConfig;

#[test]
fn test_announcement_outcome_success() {
    let outcome = AnnouncementOutcome::Success("query-123".to_string());
    assert!(outcome.is_success());
    assert!(!outcome.is_failed());
    assert_eq!(outcome.success_id(), Some("query-123"));
    assert!(outcome.error_message().is_none());
}

#[test]
fn test_announcement_outcome_failed() {
    let outcome = AnnouncementOutcome::Failed("connection timeout".to_string());
    assert!(!outcome.is_success());
    assert!(outcome.is_failed());
    assert!(outcome.success_id().is_none());
    assert_eq!(outcome.error_message(), Some("connection timeout"));
}

#[test]
fn test_announcement_outcome_skipped() {
    let outcome = AnnouncementOutcome::Skipped;
    assert!(!outcome.is_success());
    assert!(!outcome.is_failed());
}

#[test]
fn test_announcement_outcome_default() {
    let outcome = AnnouncementOutcome::default();
    assert!(matches!(outcome, AnnouncementOutcome::NotAttempted));
}

#[test]
fn test_announcement_result_any_succeeded() {
    let result = AnnouncementResult {
        dht: AnnouncementOutcome::Success("q1".into()),
        gossipsub: AnnouncementOutcome::Failed("err".into()),
    };
    assert!(result.any_succeeded());

    let result = AnnouncementResult {
        dht: AnnouncementOutcome::Failed("err".into()),
        gossipsub: AnnouncementOutcome::Success("m1".into()),
    };
    assert!(result.any_succeeded());

    let result = AnnouncementResult {
        dht: AnnouncementOutcome::Failed("e1".into()),
        gossipsub: AnnouncementOutcome::Failed("e2".into()),
    };
    assert!(!result.any_succeeded());
}

#[test]
fn test_announcement_result_all_attempted_succeeded() {
    let result = AnnouncementResult {
        dht: AnnouncementOutcome::Success("q1".into()),
        gossipsub: AnnouncementOutcome::Success("m1".into()),
    };
    assert!(result.all_attempted_succeeded());

    let result = AnnouncementResult {
        dht: AnnouncementOutcome::Success("q1".into()),
        gossipsub: AnnouncementOutcome::Skipped,
    };
    assert!(result.all_attempted_succeeded());

    let result = AnnouncementResult {
        dht: AnnouncementOutcome::Success("q1".into()),
        gossipsub: AnnouncementOutcome::Failed("err".into()),
    };
    assert!(!result.all_attempted_succeeded());
}

#[test]
fn test_announcement_result_is_empty() {
    let result = AnnouncementResult::default();
    assert!(result.is_empty());

    let result = AnnouncementResult {
        dht: AnnouncementOutcome::Skipped,
        gossipsub: AnnouncementOutcome::Skipped,
    };
    assert!(result.is_empty());

    let result = AnnouncementResult {
        dht: AnnouncementOutcome::Success("q1".into()),
        gossipsub: AnnouncementOutcome::Skipped,
    };
    assert!(!result.is_empty());
}

#[test]
fn test_announcement_result_counts() {
    let result = AnnouncementResult {
        dht: AnnouncementOutcome::Success("q1".into()),
        gossipsub: AnnouncementOutcome::Failed("err".into()),
    };
    assert_eq!(result.success_count(), 1);
    assert_eq!(result.failure_count(), 1);

    let result = AnnouncementResult {
        dht: AnnouncementOutcome::Success("q1".into()),
        gossipsub: AnnouncementOutcome::Success("m1".into()),
    };
    assert_eq!(result.success_count(), 2);
    assert_eq!(result.failure_count(), 0);
}

#[test]
fn test_content_service_config_default() {
    let config = ContentServiceConfig::default();
    assert!(matches!(config.chunking_algorithm, ChunkingAlgorithm::FastCdc));
    assert!(config.announce_dht);
    assert!(config.announce_gossip);
    assert_eq!(config.reader_batch_size, 50);
}

#[test]
fn test_content_service_config_local_only() {
    let config = ContentServiceConfig::local_only();
    assert!(!config.announce_dht);
    assert!(!config.announce_gossip);
}

#[test]
fn test_content_service_config_builders() {
    let config = ContentServiceConfig::default()
        .with_algorithm(ChunkingAlgorithm::Rabin)
        .without_dht()
        .without_gossip();

    assert!(matches!(config.chunking_algorithm, ChunkingAlgorithm::Rabin));
    assert!(!config.announce_dht);
    assert!(!config.announce_gossip);
}

#[test]
fn test_publish_stats_default() {
    let stats = PublishStats::default();
    assert_eq!(stats.chunk_count, 0);
    assert_eq!(stats.content_size, 0);
}

#[test]
fn switches_are_on_unless_false_or_zero() {
    assert!(parse_switch(None));
    assert!(parse_switch(Some("true")));
    assert!(parse_switch(Some("FALSE")));
    assert!(!parse_switch(Some("false")));
    assert!(!parse_switch(Some("0")));
}

#[test]
fn config_from_values() {
    let c = ContentServiceConfig::from_values(Some("RaBiN"), Some("0"), None, Some(7), ChunkingConfig::small());
    assert_eq!(c.chunking_algorithm, ChunkingAlgorithm::Rabin);
    assert!(!c.announce_dht);
    assert!(c.announce_gossip);
    assert_eq!(c.reader_batch_size, 7);
    assert_eq!(c.chunking_config, ChunkingConfig::small());
    let c = ContentServiceConfig::from_values(Some("fast_cdc"), None, Some("false"), None, ChunkingConfig::default());
    assert_eq!(c.chunking_algorithm, ChunkingAlgorithm::FastCdc);
    assert!(!c.announce_gossip);
    assert_eq!(c.reader_batch_size, 50);
}

#[test]
fn planned_announcements_follow_config() {
    let config = ContentServiceConfig::default().without_gossip();
    let plan = config.planned_announcements(true);
    assert!(matches!(plan.dht, AnnouncementOutcome::NotAttempted));
    assert!(matches!(plan.gossipsub, AnnouncementOutcome::Skipped));
    let plan = config.planned_announcements(false);
    assert!(matches!(plan.dht, AnnouncementOutcome::NotAttempted));
    assert!(matches!(plan.gossipsub, AnnouncementOutcome::NotAttempted));
}

#[test]
fn outcome_from_attempt() {
    assert_eq!(AnnouncementOutcome::from_attempt(Ok("id".into())).success_id(), Some("id"));
    assert_eq!(AnnouncementOutcome::from_attempt(Err("boom".into())).error_message(), Some("boom"));
}

#[test]
fn gossip_fields_default_name_and_type() {
    let manifest = DocumentManifest::builder().publisher_did("did:x").total_size(1).build_flat().unwrap();
    let (name, content_type) = gossip_fields(&manifest);
    assert_eq!(name, "unnamed");
    assert_eq!(content_type, "application/octet-stream");
    let manifest = DocumentManifest::builder()
        .publisher_did("did:x")
        .total_size(1)
        .name("a.txt")
        .content_type("text/plain")
        .build_flat()
        .unwrap();
    assert_eq!(gossip_fields(&manifest), ("a.txt".to_string(), "text/plain".to_string()));
}

#[test]
fn test_content_service_error_display() {
    let err = flow_node::service::ContentServiceError::NotFound(flow_node::content_id::ContentId::from_bytes(b"test"));
    assert!(err.message().contains("not found"));

    let err = flow_node::service::ContentServiceError::InvalidArgument("bad input".into());
    assert!(err.message().contains("bad input"));

    let err = flow_node::service::ContentServiceError::Network("connection failed".into());
    assert!(err.message().contains("connection failed"));
}

#[test]
fn content_service_error_messages_nest() {
    let inner = flow_node::dag::DagError::InvalidManifest("x".into());
    let err = flow_node::service::ContentServiceError::Dag(inner);
    assert_eq!(err.message(), "DAG error: Invalid manifest: x");
}
