//! Core of a self-hosted feed aggregation service: stable identifier
//! derivation for ingested items, a byte-level codec for the stored records,
//! and a repository over an embedded ordered key-value store with unread and
//! starred marks, tag-scoped queries and idempotent ingestion.

pub mod codec;
pub mod feed;
pub mod ids;
pub mod laws;
pub mod refresh;
pub mod repo;
pub mod store;
pub mod types;
