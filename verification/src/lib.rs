//! Content addressing, chunking and search support for the Flow node.

pub mod block;
pub mod cbor_read;
pub mod chunking;
pub mod content_api;
pub mod content_id;
pub mod dag;
pub mod dag_cbor;
pub mod error;
pub mod manifest;
pub mod manifest_read;
pub mod metadata;
pub mod provider;
pub mod query;
pub mod records;
pub mod search;
pub mod service;
pub mod store;
pub mod text;
pub mod tree_walk;
