use flow_node::content_api::{
    content_info, content_providers, publish_cid, publish_result, ContentSource, DiscoveredContent, PublishedContent,
};
use flow_node::content_id::ContentId;

fn published(cid: &str) -> PublishedContent {
    PublishedContent {
        cid: cid.to_string(),
        size: 10,
        block_count: 1,
        title: Some("local".to_string()),
        content_type: Some("text/plain".to_string()),
        published_at: 1_700_000_000_000_000,
        indexed: true,
    }
}

fn discovered(cid: &str) -> DiscoveredContent {
    DiscoveredContent {
        cid: cid.to_string(),
        size: 20,
        block_count: 2,
        title: Some("remote".to_string()),
        content_type: None,
        publisher_peer_id: "12D3KooWRemote".to_string(),
        indexed: false,
        discovered_at: 1_700_000_100_000_000,
    }
}

#[test]
fn local_record_comes_before_remote() {
    let info = content_info(Some(published("a")), Some(discovered("a"))).unwrap();
    assert_eq!(info.source, ContentSource::Local);
    assert_eq!(info.size, 10);
    assert_eq!(info.title.as_deref(), Some("local"));
    assert_eq!(info.published_at, Some(1_700_000_000_000_000));
    assert_eq!(info.discovered_at, None);
    assert!(info.indexed);
}

#[test]
fn remote_record_when_not_local() {
    let info = content_info(None, Some(discovered("b"))).unwrap();
    assert_eq!(info.source, ContentSource::Remote);
    assert_eq!(info.block_count, 2);
    assert_eq!(info.published_at, None);
    assert_eq!(info.discovered_at, Some(1_700_000_100_000_000));
    assert!(!info.indexed);
}

#[test]
fn unknown_content_has_no_info() {
    assert!(content_info(None, None).is_none());
}

#[test]
fn providers_list_local_then_remote() {
    let both = content_providers("12D3KooWLocal", true, Some("12D3KooWRemote".to_string()));
    assert_eq!(both.len(), 2);
    assert_eq!(both[0].peer_id, "12D3KooWLocal");
    assert!(both[0].is_local);
    assert_eq!(both[1].peer_id, "12D3KooWRemote");
    assert!(!both[1].is_local);
    assert!(content_providers("x", false, None).is_empty());
    let local = content_providers("x", true, None);
    assert_eq!(local.len(), 1);
}

#[test]
fn publish_uses_the_raw_identifier_text() {
    let data = b"hello flow";
    assert_eq!(publish_cid(data), ContentId::from_bytes(data).to_cid_string());
}

#[test]
fn publish_result_new_and_existing() {
    let data = b"some bytes";
    let cid = publish_cid(data);
    let fresh = publish_result(data, cid.clone(), Some("t".to_string()), None);
    assert_eq!(fresh.cid, cid);
    assert_eq!(fresh.size, data.len() as i64);
    assert_eq!(fresh.block_count, 1);
    assert!(!fresh.already_published);
    let again = publish_result(data, cid.clone(), None, Some(published(&cid)));
    assert!(again.already_published);
    assert_eq!(again.size, 10);
    assert_eq!(again.title.as_deref(), Some("local"));
}
