use flow_node::content_api::{decide_index, is_indexable, ContentSource, IndexAction};
use flow_node::content_id::ContentId;
use flow_node::records::{Claims, Edge, EdgeDirection, ProvidedCidMetadata};

#[test]
fn provided_cid_metadata_counts_announcements() {
    let cid = ContentId::from_bytes(b"provided");
    let mut meta = ProvidedCidMetadata::new(&cid);
    assert_eq!(meta.cid_string, cid.to_cid_string());
    assert!(meta.last_announced.is_none());
    assert_eq!(meta.announcement_count, 0);
    meta.record_announcement();
    meta.record_announcement();
    assert!(meta.last_announced.is_some());
    assert_eq!(meta.announcement_count, 2);
    assert!(meta.first_provided <= meta.last_announced.unwrap());
}

#[test]
fn claims_expire_after_the_given_hours() {
    let c = Claims::issued_at("did:key:abc", "device-1", 1_700_000_000, 2);
    assert_eq!(c.sub, "did:key:abc");
    assert_eq!(c.did, "did:key:abc");
    assert_eq!(c.device_id, "device-1");
    assert_eq!(c.iat, 1_700_000_000);
    assert_eq!(c.exp, 1_700_007_200);
}

#[test]
fn edges_hold_their_direction() {
    let e = Edge { id: 1, edge_type: "mentions".into(), other_id: 2, direction: EdgeDirection::Incoming };
    assert_eq!(e.direction, EdgeDirection::Incoming);
    assert_ne!(ContentSource::Local, ContentSource::Remote);
}

#[test]
fn indexable_types() {
    assert!(is_indexable(Some("text/plain")));
    assert!(is_indexable(Some("text/")));
    assert!(is_indexable(Some("application/json")));
    assert!(is_indexable(Some("application/markdown")));
    assert!(!is_indexable(Some("application/pdf")));
    assert!(!is_indexable(Some("tex")));
    assert!(!is_indexable(None));
}

#[test]
fn index_decisions() {
    let (r, a) = decide_index("c1", true, Some(4), Some("application/pdf"));
    assert!(r.indexed);
    assert_eq!(r.embedding_count, Some(4));
    assert!(matches!(a, IndexAction::Nothing));

    let (r, a) = decide_index("c2", false, Some(4), Some("application/pdf"));
    assert!(!r.indexed);
    assert_eq!(r.error.as_deref(), Some("Content type 'application/pdf' is not indexable"));
    assert!(matches!(a, IndexAction::RecordError(ref m) if m == "Content type 'application/pdf' is not indexable"));

    let (r, _) = decide_index("c3", false, None, None);
    assert_eq!(r.error.as_deref(), Some("Content type 'unknown' is not indexable"));

    let (r, a) = decide_index("c4", false, None, Some("text/markdown"));
    assert_eq!(r.cid, "c4");
    assert!(!r.indexed && r.error.is_none());
    assert!(matches!(a, IndexAction::ClearError));
}
