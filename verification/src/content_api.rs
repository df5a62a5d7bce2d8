//! Types of the content API, and the indexing decision for remote content.

use vstd::prelude::*;
use vstd::string::*;

use crate::content_id::{cid_text, id_of, ContentId, RAW_CODEC};

verus! {

/// A published content record of this node.
#[derive(Debug)]
pub struct PublishedContent {
    /// Content identifier, as text.
    pub cid: String,
    /// Content size in bytes.
    pub size: i64,
    /// Number of blocks.
    pub block_count: i32,
    /// Title, if any.
    pub title: Option<String>,
    /// MIME type, if any.
    pub content_type: Option<String>,
    /// When it was published: Unix time in microseconds.
    pub published_at: i64,
    /// Whether it is indexed.
    pub indexed: bool,
}

/// A content record discovered from the network.
#[derive(Debug)]
pub struct DiscoveredContent {
    /// Content identifier, as text.
    pub cid: String,
    /// Content size in bytes.
    pub size: i64,
    /// Number of blocks.
    pub block_count: i32,
    /// Title, if any.
    pub title: Option<String>,
    /// MIME type, if any.
    pub content_type: Option<String>,
    /// The publishing peer.
    pub publisher_peer_id: String,
    /// Whether it is indexed.
    pub indexed: bool,
    /// When it was discovered: Unix time in microseconds.
    pub discovered_at: i64,
}

/// What is known of a piece of content, local or remote.
#[derive(Debug)]
pub struct ContentInfo {
    /// Content identifier, as text.
    pub cid: String,
    /// Content size in bytes.
    pub size: i64,
    /// Number of blocks.
    pub block_count: i32,
    /// MIME type, if any.
    pub content_type: Option<String>,
    /// Title, if any.
    pub title: Option<String>,
    /// Where the content comes from.
    pub source: ContentSource,
    /// Whether it is indexed.
    pub indexed: bool,
    /// When it was published, for local content (Unix time in microseconds).
    pub published_at: Option<i64>,
    /// When it was discovered, for remote content (Unix time in microseconds).
    pub discovered_at: Option<i64>,
}

/// Where content comes from.
#[derive(Debug, Clone, Copy, PartialEq, Eq, Structural)]
pub enum ContentSource {
    /// Published by this node.
    Local,
    /// Discovered from the network.
    Remote,
}

/// Result of a publish operation of the content API.
#[derive(Debug)]
pub struct PublishResult {
    /// Root identifier, as text.
    pub cid: String,
    /// Content size in bytes.
    pub size: i64,
    /// Number of blocks.
    pub block_count: i32,
    /// Title, if any.
    pub title: Option<String>,
    /// Whether the content had been published before.
    pub already_published: bool,
}

/// Result of an index request.
#[derive(Debug)]
pub struct IndexResult {
    /// Content identifier, as text.
    pub cid: String,
    /// Whether the content is indexed.
    pub indexed: bool,
    /// Number of embeddings, when indexed.
    pub embedding_count: Option<i32>,
    /// Why the content cannot be indexed, if it cannot.
    pub error: Option<String>,
}

/// A provider of content.
#[derive(Debug)]
pub struct Provider {
    /// The provider's peer identifier.
    pub peer_id: String,
    /// Whether the provider is this node.
    pub is_local: bool,
}

/// Whether a content type can be indexed: text types, JSON and Markdown.
pub open spec fn indexable_type(content_type: Option<Seq<char>>) -> bool {
    match content_type {
        Some(ct) => (ct.len() >= 5 && ct.subrange(0, 5) == "text/"@) || ct == "application/json"@ || ct
            == "application/markdown"@,
        None => false,
    }
}

/// Whether a content type can be indexed.
pub fn is_indexable(content_type: Option<&str>) -> (r: bool)
    ensures
        r == indexable_type(match content_type { Some(c) => Some(c@), None => None }),
{
    match content_type {
        Some(ct) => starts_with_text_slash(ct) || crate::text::str_equals(ct, "application/json")
            || crate::text::str_equals(ct, "application/markdown"),
        None => false,
    }
}

fn starts_with_text_slash(ct: &str) -> (r: bool)
    ensures
        r == (ct@.len() >= 5 && ct@.subrange(0, 5) == "text/"@),
{
    proof {
        reveal_strlit("text/");
    }
    let n = ct.unicode_len();
    if n < 5 {
        return false;
    }
    let p = "text/";
    let mut i: usize = 0;
    while i < 5
        invariant
            n == ct@.len(),
            n >= 5,
            p@ == "text/"@,
            p@.len() == 5,
            i <= 5,
            forall|j: int| 0 <= j < i ==> ct@[j] == p@[j],
        decreases 5 - i,
    {
        if ct.get_char(i) != p.get_char(i) {
            assert(ct@.subrange(0, 5)[i as int] != "text/"@[i as int]);
            return false;
        }
        i = i + 1;
    }
    assert(ct@.subrange(0, 5) =~= "text/"@);
    true
}

/// The message for content whose type cannot be indexed.
pub open spec fn not_indexable_message(content_type: Option<Seq<char>>) -> Seq<char> {
    "Content type '"@ + (match content_type { Some(c) => c, None => "unknown"@ }) + "' is not indexable"@
}

/// What an index request does to a remote content record.
#[derive(Debug)]
pub enum IndexAction {
    /// Nothing: the content is already indexed.
    Nothing,
    /// Store the error on the record: the content cannot be indexed.
    RecordError(String),
    /// Clear the record's error: the content is queued for indexing.
    ClearError,
}

/// The decision of an index request for a remote content record: already indexed content
/// reports its embeddings; content of a type that cannot be indexed reports (and records)
/// why; other content is queued.
pub fn decide_index(cid: &str, indexed: bool, embedding_count: Option<i32>, content_type: Option<&str>) -> (r: (IndexResult, IndexAction))
    ensures
        r.0.cid@ == cid@,
        indexed ==> (r.0.indexed && r.0.embedding_count == embedding_count && r.0.error is None && r.1 is Nothing),
        !indexed && !indexable_type(match content_type { Some(c) => Some(c@), None => None }) ==> (!r.0.indexed
            && r.0.embedding_count is None && (r.0.error matches Some(m) && m@ == not_indexable_message(
            match content_type { Some(c) => Some(c@), None => None },
        )) && (r.1 matches IndexAction::RecordError(m) && m@ == not_indexable_message(
            match content_type { Some(c) => Some(c@), None => None },
        ))),
        !indexed && indexable_type(match content_type { Some(c) => Some(c@), None => None }) ==> (!r.0.indexed
            && r.0.embedding_count is None && r.0.error is None && r.1 is ClearError),
{
    if indexed {
        return (IndexResult { cid: cid.to_owned(), indexed: true, embedding_count, error: None }, IndexAction::Nothing);
    }
    if !is_indexable(content_type) {
        let shown = match content_type {
            Some(c) => c,
            None => "unknown",
        };
        let msg = String::from_str("Content type '").concat(shown).concat("' is not indexable");
        let copy = msg.clone();
        return (
            IndexResult { cid: cid.to_owned(), indexed: false, embedding_count: None, error: Some(msg) },
            IndexAction::RecordError(copy),
        );
    }
    (IndexResult { cid: cid.to_owned(), indexed: false, embedding_count: None, error: None }, IndexAction::ClearError)
}

/// What is known of content from its local record, if any, else its remote record: local
/// content comes first.
pub fn content_info(published: Option<PublishedContent>, remote: Option<DiscoveredContent>) -> (r: Option<ContentInfo>)
    ensures
        published matches Some(p) ==> (r matches Some(i) && i.cid == p.cid && i.size == p.size && i.block_count
            == p.block_count && i.content_type == p.content_type && i.title == p.title && i.source == ContentSource::Local
            && i.indexed == p.indexed && i.published_at == Some(p.published_at) && i.discovered_at is None),
        published is None && remote is Some ==> (r matches Some(i) && i.cid == remote->0.cid && i.size == remote->0.size
            && i.block_count == remote->0.block_count && i.content_type == remote->0.content_type && i.title
            == remote->0.title && i.source == ContentSource::Remote && i.indexed == remote->0.indexed && i.published_at is None
            && i.discovered_at == Some(remote->0.discovered_at)),
        published is None && remote is None ==> r is None,
{
    match published {
        Some(p) => Some(
            ContentInfo {
                cid: p.cid,
                size: p.size,
                block_count: p.block_count,
                content_type: p.content_type,
                title: p.title,
                source: ContentSource::Local,
                indexed: p.indexed,
                published_at: Some(p.published_at),
                discovered_at: None,
            },
        ),
        None => match remote {
            Some(d) => Some(
                ContentInfo {
                    cid: d.cid,
                    size: d.size,
                    block_count: d.block_count,
                    content_type: d.content_type,
                    title: d.title,
                    source: ContentSource::Remote,
                    indexed: d.indexed,
                    published_at: None,
                    discovered_at: Some(d.discovered_at),
                },
            ),
            None => None,
        },
    }
}

/// The providers of content: this node first when it published the content, then the
/// publisher of the remote record, if any.
pub fn content_providers(local_peer_id: &str, published_here: bool, remote_publisher: Option<String>) -> (r: Vec<Provider>)
    ensures
        r@.len() == (if published_here { 1int } else { 0int }) + (if remote_publisher is Some { 1int } else { 0int }),
        published_here ==> r@[0].peer_id@ == local_peer_id@ && r@[0].is_local,
        remote_publisher matches Some(p) ==> r@.last().peer_id == p && !r@.last().is_local,
{
    let mut providers: Vec<Provider> = Vec::new();
    if published_here {
        providers.push(Provider { peer_id: local_peer_id.to_owned(), is_local: true });
    }
    match remote_publisher {
        Some(p) => providers.push(Provider { peer_id: p, is_local: false }),
        None => {},
    }
    providers
}

/// The text of an identifier view.
pub open spec fn id_text_of(id: (u64, u64, u64, Seq<u8>)) -> Seq<char> {
    cid_text(id.0, id.1, id.2, id.3)
}

/// The identifier under which content is published: the text of the RAW identifier of its
/// bytes.
pub fn publish_cid(data: &[u8]) -> (r: String)
    ensures
        r@ == id_text_of(id_of(RAW_CODEC, data@)),
{
    ContentId::from_bytes(data).to_cid_string()
}

/// The result of publishing `data`: the existing record's, marked as published before, when
/// the content was published already; else a new single-block record of the data's size.
pub fn publish_result(data: &[u8], cid: String, title: Option<String>, existing: Option<PublishedContent>) -> (r: PublishResult)
    requires
        data@.len() <= i64::MAX,
    ensures
        existing matches Some(e) ==> (r.cid == e.cid && r.size == e.size && r.block_count == e.block_count && r.title
            == e.title && r.already_published),
        existing is None ==> (r.cid == cid && r.size == data@.len() && r.block_count == 1 && r.title == title
            && !r.already_published),
{
    match existing {
        Some(e) => PublishResult { cid: e.cid, size: e.size, block_count: e.block_count, title: e.title, already_published: true },
        None => PublishResult { cid, size: data.len() as i64, block_count: 1, title, already_published: false },
    }
}

} // verus!
