//! Error types of block storage and content providers.

use vstd::prelude::*;

use vstd::string::*;

use crate::content_id::{cid_text, ContentId};
use crate::text::{decimal, decimal_string};

verus! {

/// The text of an I/O error: `ToString::to_string` on `std::io::Error`, which writes its
/// `Display`. Nothing is claimed of the text, which comes from the operating system.
#[verifier::external_body]
pub(crate) fn io_error_text(e: &std::io::Error) -> (r: String) {
    e.to_string()
}

/// Errors that can occur during block store operations.
#[derive(Debug)]
pub enum BlockStoreError {
    /// Storage backend error.
    Storage(String),
    /// Block exceeds maximum allowed size.
    BlockTooLarge { size: usize, max: usize },
    /// Invalid CID format or encoding.
    InvalidCid(String),
    /// Block not found in store.
    NotFound(ContentId),
    /// Serialization/deserialization error.
    Serialization(String),
    /// Data integrity verification failed.
    IntegrityError { expected: ContentId, actual: ContentId },
    /// Configuration error.
    Config(String),
    /// Database already exists or is locked.
    Database(String),
}

/// Errors that can occur during content provider operations.
#[derive(Debug)]
pub enum ContentProviderError {
    /// Block not found in any provider.
    NotFound(ContentId),
    /// Local storage error.
    Storage(String),
    /// Network error (for remote providers).
    Network(String),
    /// Provider is unavailable or not started.
    Unavailable(String),
    /// Internal error.
    Internal(String),
    /// All provider attempts exhausted.
    ProvidersExhausted { cid: ContentId, attempts: usize },
}

/// The text form of an identifier.
pub open spec fn id_text(c: ContentId) -> Seq<char> {
    cid_text(c@.0, c@.1, c@.2, c@.3)
}

/// The message of a block store error.
pub open spec fn block_store_message(e: BlockStoreError) -> Seq<char> {
    match e {
        BlockStoreError::Storage(s) => "Storage error: "@ + s@,
        BlockStoreError::BlockTooLarge { size, max } => "Block too large: "@ + decimal(size as nat) + " bytes (max: "@
            + decimal(max as nat) + ")"@,
        BlockStoreError::InvalidCid(s) => "Invalid CID: "@ + s@,
        BlockStoreError::NotFound(c) => "Block not found: "@ + id_text(c),
        BlockStoreError::Serialization(s) => "Serialization error: "@ + s@,
        BlockStoreError::IntegrityError { expected, actual } => "Integrity error: expected "@ + id_text(expected)
            + ", got "@ + id_text(actual),
        BlockStoreError::Config(s) => "Configuration error: "@ + s@,
        BlockStoreError::Database(s) => "Database error: "@ + s@,
    }
}

impl BlockStoreError {
    /// The error's message.
    pub fn message(&self) -> (r: String)
        ensures
            r@ == block_store_message(*self),
    {
        let r = match self {
            BlockStoreError::Storage(s) => String::from_str("Storage error: ").concat(s.as_str()),
            BlockStoreError::BlockTooLarge { size, max } => String::from_str("Block too large: ").concat(
                decimal_string(*size as u64).as_str(),
            ).concat(" bytes (max: ").concat(decimal_string(*max as u64).as_str()).concat(")"),
            BlockStoreError::InvalidCid(s) => String::from_str("Invalid CID: ").concat(s.as_str()),
            BlockStoreError::NotFound(c) => String::from_str("Block not found: ").concat(c.to_cid_string().as_str()),
            BlockStoreError::Serialization(s) => String::from_str("Serialization error: ").concat(s.as_str()),
            BlockStoreError::IntegrityError { expected, actual } => String::from_str("Integrity error: expected ").concat(
                expected.to_cid_string().as_str(),
            ).concat(", got ").concat(actual.to_cid_string().as_str()),
            BlockStoreError::Config(s) => String::from_str("Configuration error: ").concat(s.as_str()),
            BlockStoreError::Database(s) => String::from_str("Database error: ").concat(s.as_str()),
        };
        assert(r@ =~= block_store_message(*self));
        r
    }
}

/// The message of a content provider error.
pub open spec fn provider_message(e: ContentProviderError) -> Seq<char> {
    match e {
        ContentProviderError::NotFound(c) => "Block not found: "@ + id_text(c),
        ContentProviderError::Storage(s) => "Storage error: "@ + s@,
        ContentProviderError::Network(s) => "Network error: "@ + s@,
        ContentProviderError::Unavailable(s) => "Provider unavailable: "@ + s@,
        ContentProviderError::Internal(s) => "Internal error: "@ + s@,
        ContentProviderError::ProvidersExhausted { cid, attempts } => "All "@ + decimal(attempts as nat)
            + " provider attempts exhausted for "@ + id_text(cid),
    }
}

impl ContentProviderError {
    /// The error's message.
    pub fn message(&self) -> (r: String)
        ensures
            r@ == provider_message(*self),
    {
        let r = match self {
            ContentProviderError::NotFound(c) => String::from_str("Block not found: ").concat(c.to_cid_string().as_str()),
            ContentProviderError::Storage(s) => String::from_str("Storage error: ").concat(s.as_str()),
            ContentProviderError::Network(s) => String::from_str("Network error: ").concat(s.as_str()),
            ContentProviderError::Unavailable(s) => String::from_str("Provider unavailable: ").concat(s.as_str()),
            ContentProviderError::Internal(s) => String::from_str("Internal error: ").concat(s.as_str()),
            ContentProviderError::ProvidersExhausted { cid, attempts } => String::from_str("All ").concat(
                decimal_string(*attempts as u64).as_str(),
            ).concat(" provider attempts exhausted for ").concat(cid.to_cid_string().as_str()),
        };
        assert(r@ =~= provider_message(*self));
        r
    }

    /// The provider error for a block store error: a missing block stays a missing block;
    /// any other error becomes a storage error carrying its message.
    pub fn from_store_error(e: BlockStoreError) -> (r: Self)
        ensures
            match e {
                BlockStoreError::NotFound(c) => r matches ContentProviderError::NotFound(d) && d@ == c@,
                _ => r matches ContentProviderError::Storage(m) && m@ == block_store_message(e),
            },
    {
        match e {
            BlockStoreError::NotFound(c) => ContentProviderError::NotFound(c),
            other => {
                let m = other.message();
                ContentProviderError::Storage(m)
            },
        }
    }
}

} // verus!
