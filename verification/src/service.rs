//! Configuration, results and announcement decisions of the content service, which publishes
//! content (chunking, DAG building, storage) and announces it to the network.

use vstd::prelude::*;
use vstd::string::*;

use crate::chunking::config::ChunkingConfig;
use crate::chunking::ChunkingAlgorithm;
use crate::content_id::ContentId;
use crate::dag::{dag_carries_io, dag_message, DagError};
use crate::error::{block_store_message, id_text, io_error_text, provider_message, BlockStoreError, ContentProviderError};
use crate::manifest::DocumentManifest;
use crate::text::{lowercase_is, str_equals, str_lowercase_is};

verus! {

// ---------------------------------------------------------------------------------------------
// Announcements
// ---------------------------------------------------------------------------------------------

/// Result of one announcement attempt.
#[derive(Debug, Clone)]
pub enum AnnouncementOutcome {
    /// The announcement succeeded, with its identifier.
    Success(String),
    /// The announcement failed, with the error message.
    Failed(String),
    /// The announcement is disabled in the configuration.
    Skipped,
    /// The announcement could not be attempted (e.g. the network is not running).
    NotAttempted,
}

impl Default for AnnouncementOutcome {
    fn default() -> (r: Self)
        ensures
            r is NotAttempted,
    {
        AnnouncementOutcome::NotAttempted
    }
}

impl AnnouncementOutcome {
    /// Whether the announcement succeeded.
    pub fn is_success(&self) -> (r: bool)
        ensures
            r == (*self is Success),
    {
        match self {
            AnnouncementOutcome::Success(_) => true,
            _ => false,
        }
    }

    /// Whether the announcement failed.
    pub fn is_failed(&self) -> (r: bool)
        ensures
            r == (*self is Failed),
    {
        match self {
            AnnouncementOutcome::Failed(_) => true,
            _ => false,
        }
    }

    /// The identifier of a successful announcement.
    pub fn success_id(&self) -> (r: Option<&str>)
        ensures
            match *self {
                AnnouncementOutcome::Success(id) => r matches Some(s) && s@ == id@,
                _ => r is None,
            },
    {
        match self {
            AnnouncementOutcome::Success(id) => Some(id.as_str()),
            _ => None,
        }
    }

    /// The error message of a failed announcement.
    pub fn error_message(&self) -> (r: Option<&str>)
        ensures
            match *self {
                AnnouncementOutcome::Failed(msg) => r matches Some(s) && s@ == msg@,
                _ => r is None,
            },
    {
        match self {
            AnnouncementOutcome::Failed(msg) => Some(msg.as_str()),
            _ => None,
        }
    }

    /// The outcome of an attempted announcement: success with the identifier it returned, or
    /// failure with the error message.
    pub fn from_attempt(attempt: Result<String, String>) -> (r: Self)
        ensures
            match attempt {
                Ok(id) => r matches AnnouncementOutcome::Success(s) && s@ == id@,
                Err(msg) => r matches AnnouncementOutcome::Failed(s) && s@ == msg@,
            },
    {
        match attempt {
            Ok(id) => AnnouncementOutcome::Success(id),
            Err(msg) => AnnouncementOutcome::Failed(msg),
        }
    }
}

/// Whether an outcome counts as not announced at all (skipped or not attempted).
pub open spec fn unannounced(o: AnnouncementOutcome) -> bool {
    o is Skipped || o is NotAttempted
}

/// Outcomes of all announcement methods.
#[derive(Debug, Clone)]
pub struct AnnouncementResult {
    /// DHT provider announcement.
    pub dht: AnnouncementOutcome,
    /// GossipSub broadcast.
    pub gossipsub: AnnouncementOutcome,
}

impl Default for AnnouncementResult {
    fn default() -> (r: Self)
        ensures
            r.dht is NotAttempted,
            r.gossipsub is NotAttempted,
    {
        AnnouncementResult { dht: AnnouncementOutcome::NotAttempted, gossipsub: AnnouncementOutcome::NotAttempted }
    }
}

impl AnnouncementResult {
    /// Whether at least one announcement succeeded.
    pub fn any_succeeded(&self) -> (r: bool)
        ensures
            r == (self.dht is Success || self.gossipsub is Success),
    {
        self.dht.is_success() || self.gossipsub.is_success()
    }

    /// Whether every attempted announcement succeeded (skipped and unattempted ones count as
    /// no failure).
    pub fn all_attempted_succeeded(&self) -> (r: bool)
        ensures
            r == (!(self.dht is Failed) && !(self.gossipsub is Failed)),
    {
        !self.dht.is_failed() && !self.gossipsub.is_failed()
    }

    /// Whether every announcement was skipped or not attempted.
    pub fn is_empty(&self) -> (r: bool)
        ensures
            r == (unannounced(self.dht) && unannounced(self.gossipsub)),
    {
        let d = match self.dht {
            AnnouncementOutcome::Skipped | AnnouncementOutcome::NotAttempted => true,
            _ => false,
        };
        let g = match self.gossipsub {
            AnnouncementOutcome::Skipped | AnnouncementOutcome::NotAttempted => true,
            _ => false,
        };
        d && g
    }

    /// The number of successful announcements.
    pub fn success_count(&self) -> (r: usize)
        ensures
            r == (if self.dht is Success { 1int } else { 0 }) + (if self.gossipsub is Success { 1int } else { 0 }),
    {
        let mut n: usize = 0;
        if self.dht.is_success() {
            n = n + 1;
        }
        if self.gossipsub.is_success() {
            n = n + 1;
        }
        n
    }

    /// The number of failed announcements.
    pub fn failure_count(&self) -> (r: usize)
        ensures
            r == (if self.dht is Failed { 1int } else { 0 }) + (if self.gossipsub is Failed { 1int } else { 0 }),
    {
        let mut n: usize = 0;
        if self.dht.is_failed() {
            n = n + 1;
        }
        if self.gossipsub.is_failed() {
            n = n + 1;
        }
        n
    }
}

// ---------------------------------------------------------------------------------------------
// Configuration
// ---------------------------------------------------------------------------------------------

/// Configuration of the content service.
#[derive(Debug, Clone, Copy)]
pub struct ContentServiceConfig {
    /// Chunking algorithm (default FastCDC).
    pub chunking_algorithm: ChunkingAlgorithm,
    /// Chunk sizes.
    pub chunking_config: ChunkingConfig,
    /// Whether to announce to the DHT after publishing (default true).
    pub announce_dht: bool,
    /// Whether to broadcast via GossipSub after publishing (default true).
    pub announce_gossip: bool,
    /// Batch size of DAG reads (default 50).
    pub reader_batch_size: usize,
}

impl Default for ContentServiceConfig {
    fn default() -> (r: Self)
        ensures
            r.chunking_algorithm == ChunkingAlgorithm::FastCdc,
            r.chunking_config.min_size == 65536 && r.chunking_config.target_size == 262144
                && r.chunking_config.max_size == 1048576,
            r.announce_dht,
            r.announce_gossip,
            r.reader_batch_size == 50,
    {
        ContentServiceConfig {
            chunking_algorithm: ChunkingAlgorithm::FastCdc,
            chunking_config: ChunkingConfig::default_config(),
            announce_dht: true,
            announce_gossip: true,
            reader_batch_size: 50,
        }
    }
}

/// The algorithm a configuration value names, ignoring case: "fastcdc", "rabin" or "fixed".
pub open spec fn service_algorithm_named(s: Seq<char>) -> Option<ChunkingAlgorithm> {
    if lowercase_is(s, "fastcdc"@) {
        Some(ChunkingAlgorithm::FastCdc)
    } else if lowercase_is(s, "rabin"@) {
        Some(ChunkingAlgorithm::Rabin)
    } else if lowercase_is(s, "fixed"@) {
        Some(ChunkingAlgorithm::Fixed)
    } else {
        None
    }
}

/// An announcement switch: on unless set to "false" or "0".
pub open spec fn switch_on(value: Option<Seq<char>>) -> bool {
    match value {
        Some(s) => s != "false"@ && s != "0"@,
        None => true,
    }
}

/// An announcement switch from its configuration value (`None` when unset).
pub fn parse_switch(value: Option<&str>) -> (r: bool)
    ensures
        r == switch_on(match value { Some(s) => Some(s@), None => None }),
{
    match value {
        Some(s) => !str_equals(s, "false") && !str_equals(s, "0"),
        None => true,
    }
}

impl ContentServiceConfig {
    /// The configuration `from_env` builds from the values it read (`None` when a variable is
    /// unset, or for the batch size when it does not parse) and the chunk sizes read the same
    /// way: the named algorithm or FastCDC, announcements on unless switched off, and a batch
    /// size of 50 by default.
    pub fn from_values(
        algorithm: Option<&str>,
        announce_dht: Option<&str>,
        announce_gossip: Option<&str>,
        reader_batch_size: Option<usize>,
        chunking_config: ChunkingConfig,
    ) -> (r: Self)
        ensures
            r.chunking_algorithm == match algorithm {
                Some(s) => match service_algorithm_named(s@) { Some(a) => a, None => ChunkingAlgorithm::FastCdc },
                None => ChunkingAlgorithm::FastCdc,
            },
            r.chunking_config == chunking_config,
            r.announce_dht == switch_on(match announce_dht { Some(s) => Some(s@), None => None }),
            r.announce_gossip == switch_on(match announce_gossip { Some(s) => Some(s@), None => None }),
            r.reader_batch_size == match reader_batch_size { Some(b) => b, None => 50 },
    {
        let chunking_algorithm = match algorithm {
            Some(s) => if str_lowercase_is(s, "fastcdc") {
                ChunkingAlgorithm::FastCdc
            } else if str_lowercase_is(s, "rabin") {
                ChunkingAlgorithm::Rabin
            } else if str_lowercase_is(s, "fixed") {
                ChunkingAlgorithm::Fixed
            } else {
                ChunkingAlgorithm::FastCdc
            },
            None => ChunkingAlgorithm::FastCdc,
        };
        ContentServiceConfig {
            chunking_algorithm,
            chunking_config,
            announce_dht: parse_switch(announce_dht),
            announce_gossip: parse_switch(announce_gossip),
            reader_batch_size: match reader_batch_size {
                Some(b) => b,
                None => 50,
            },
        }
    }

    /// The default configuration with both announcements off.
    pub fn local_only() -> (r: Self)
        ensures
            r.chunking_algorithm == ChunkingAlgorithm::FastCdc,
            r.chunking_config.min_size == 65536 && r.chunking_config.target_size == 262144
                && r.chunking_config.max_size == 1048576,
            !r.announce_dht,
            !r.announce_gossip,
            r.reader_batch_size == 50,
    {
        let mut c = Self::default();
        c.announce_dht = false;
        c.announce_gossip = false;
        c
    }

    /// This configuration with another chunking algorithm.
    pub fn with_algorithm(self, algorithm: ChunkingAlgorithm) -> (r: Self)
        ensures
            r == (ContentServiceConfig { chunking_algorithm: algorithm, ..self }),
    {
        let mut c = self;
        c.chunking_algorithm = algorithm;
        c
    }

    /// This configuration with DHT announcements off.
    pub fn without_dht(self) -> (r: Self)
        ensures
            r == (ContentServiceConfig { announce_dht: false, ..self }),
    {
        let mut c = self;
        c.announce_dht = false;
        c
    }

    /// This configuration with GossipSub announcements off.
    pub fn without_gossip(self) -> (r: Self)
        ensures
            r == (ContentServiceConfig { announce_gossip: false, ..self }),
    {
        let mut c = self;
        c.announce_gossip = false;
        c
    }

    /// The announcements before any is attempted: none when the network is not running;
    /// otherwise each disabled one is skipped and each enabled one is still to be attempted.
    pub fn planned_announcements(&self, network_running: bool) -> (r: AnnouncementResult)
        ensures
            !network_running ==> (r.dht is NotAttempted && r.gossipsub is NotAttempted),
            network_running ==> (r.dht is Skipped <==> !self.announce_dht) && (r.dht is NotAttempted <==> self.announce_dht),
            network_running ==> (r.gossipsub is Skipped <==> !self.announce_gossip) && (r.gossipsub is NotAttempted
                <==> self.announce_gossip),
    {
        if !network_running {
            return AnnouncementResult::default();
        }
        AnnouncementResult {
            dht: if self.announce_dht { AnnouncementOutcome::NotAttempted } else { AnnouncementOutcome::Skipped },
            gossipsub: if self.announce_gossip { AnnouncementOutcome::NotAttempted } else { AnnouncementOutcome::Skipped },
        }
    }
}

/// The name and content type that a GossipSub announcement carries for a manifest: its own,
/// or "unnamed" and "application/octet-stream".
pub fn gossip_fields(manifest: &DocumentManifest) -> (r: (String, String))
    ensures
        r.0@ == match manifest.name { Some(n) => n@, None => "unnamed"@ },
        r.1@ == match manifest.content_type { Some(c) => c@, None => "application/octet-stream"@ },
{
    let name = match &manifest.name {
        Some(n) => n.clone(),
        None => "unnamed".to_owned(),
    };
    let content_type = match &manifest.content_type {
        Some(c) => c.clone(),
        None => "application/octet-stream".to_owned(),
    };
    (name, content_type)
}

// ---------------------------------------------------------------------------------------------
// Results and errors
// ---------------------------------------------------------------------------------------------

/// Statistics of a publish operation.
#[derive(Debug, Clone, Copy)]
pub struct PublishStats {
    /// Number of data chunks.
    pub chunk_count: usize,
    /// Total bytes of the content.
    pub content_size: u64,
}

impl Default for PublishStats {
    fn default() -> (r: Self)
        ensures
            r.chunk_count == 0,
            r.content_size == 0,
    {
        PublishStats { chunk_count: 0, content_size: 0 }
    }
}

/// Result of a successful publish operation.
#[derive(Debug)]
pub struct PublishResult {
    /// Root identifier of the published content.
    pub root_cid: ContentId,
    /// Document manifest.
    pub manifest: DocumentManifest,
    /// Publishing statistics.
    pub stats: PublishStats,
    /// Announcement outcomes.
    pub announcement: AnnouncementResult,
}

/// Errors of content service operations.
#[derive(Debug)]
pub enum ContentServiceError {
    /// Storage layer error.
    Storage(BlockStoreError),
    /// DAG building or reading error.
    Dag(DagError),
    /// Content provider error.
    Provider(ContentProviderError),
    /// Network operation error.
    Network(String),
    /// Content not found locally or on the network.
    NotFound(ContentId),
    /// File I/O error.
    Io(std::io::Error),
    /// Invalid argument.
    InvalidArgument(String),
}

/// The message of a content service error; for an error carrying an I/O error, the part
/// before the I/O error's own text.
pub open spec fn service_message(e: ContentServiceError) -> Seq<char> {
    match e {
        ContentServiceError::Storage(b) => "Storage error: "@ + block_store_message(b),
        ContentServiceError::Dag(d) => "DAG error: "@ + dag_message(d),
        ContentServiceError::Provider(p) => "Provider error: "@ + provider_message(p),
        ContentServiceError::Network(s) => "Network error: "@ + s@,
        ContentServiceError::NotFound(c) => "Content not found: "@ + id_text(c),
        ContentServiceError::Io(_) => "IO error: "@,
        ContentServiceError::InvalidArgument(s) => "Invalid argument: "@ + s@,
    }
}

/// Whether a content service error carries an I/O error, whose text ends its message.
pub open spec fn service_carries_io(e: ContentServiceError) -> bool {
    match e {
        ContentServiceError::Io(_) => true,
        ContentServiceError::Dag(d) => dag_carries_io(d),
        _ => false,
    }
}

impl ContentServiceError {
    /// The error's message: `service_message`, followed by the I/O error's text where the
    /// error carries one.
    pub fn message(&self) -> (r: String)
        ensures
            !service_carries_io(*self) ==> r@ == service_message(*self),
            service_carries_io(*self) ==> r@.len() >= service_message(*self).len() && r@.subrange(
                0,
                service_message(*self).len() as int,
            ) == service_message(*self),
    {
        let r = match self {
            ContentServiceError::Storage(b) => String::from_str("Storage error: ").concat(b.message().as_str()),
            ContentServiceError::Dag(d) => String::from_str("DAG error: ").concat(d.message().as_str()),
            ContentServiceError::Provider(p) => String::from_str("Provider error: ").concat(p.message().as_str()),
            ContentServiceError::Network(s) => String::from_str("Network error: ").concat(s.as_str()),
            ContentServiceError::NotFound(c) => String::from_str("Content not found: ").concat(c.to_cid_string().as_str()),
            ContentServiceError::Io(e) => String::from_str("IO error: ").concat(io_error_text(e).as_str()),
            ContentServiceError::InvalidArgument(s) => String::from_str("Invalid argument: ").concat(s.as_str()),
        };
        proof {
            if !service_carries_io(*self) {
                assert(r@ =~= service_message(*self));
            } else {
                assert(r@.subrange(0, service_message(*self).len() as int) =~= service_message(*self));
            }
        }
        r
    }
}

impl From<BlockStoreError> for ContentServiceError {
    fn from(e: BlockStoreError) -> (r: Self) {
        ContentServiceError::Storage(e)
    }
}

impl vstd::std_specs::convert::FromSpecImpl<BlockStoreError> for ContentServiceError {
    open spec fn obeys_from_spec() -> bool {
        true
    }

    open spec fn from_spec(v: BlockStoreError) -> Self {
        ContentServiceError::Storage(v)
    }
}

impl From<DagError> for ContentServiceError {
    fn from(e: DagError) -> (r: Self) {
        ContentServiceError::Dag(e)
    }
}

impl vstd::std_specs::convert::FromSpecImpl<DagError> for ContentServiceError {
    open spec fn obeys_from_spec() -> bool {
        true
    }

    open spec fn from_spec(v: DagError) -> Self {
        ContentServiceError::Dag(v)
    }
}

impl From<ContentProviderError> for ContentServiceError {
    fn from(e: ContentProviderError) -> (r: Self) {
        ContentServiceError::Provider(e)
    }
}

impl vstd::std_specs::convert::FromSpecImpl<ContentProviderError> for ContentServiceError {
    open spec fn obeys_from_spec() -> bool {
        true
    }

    open spec fn from_spec(v: ContentProviderError) -> Self {
        ContentServiceError::Provider(v)
    }
}

impl From<std::io::Error> for ContentServiceError {
    fn from(e: std::io::Error) -> (r: Self) {
        ContentServiceError::Io(e)
    }
}

impl vstd::std_specs::convert::FromSpecImpl<std::io::Error> for ContentServiceError {
    open spec fn obeys_from_spec() -> bool {
        true
    }

    open spec fn from_spec(v: std::io::Error) -> Self {
        ContentServiceError::Io(v)
    }
}

} // verus!
