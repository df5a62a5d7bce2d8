//! Search: distributed search configuration, requests and errors, and federated search
//! scopes and collection bookkeeping.

pub mod cache;
pub mod config;
pub mod error;
pub mod federated;
pub mod handler;
pub mod live;
pub mod messages;
pub mod orchestration;
pub mod ranking;
pub mod types;
