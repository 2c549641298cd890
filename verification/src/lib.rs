//! Capture store for inbound HTTP requests: records, a bounded newest-first
//! store, cursor pagination, ingestion and the per-viewer session rules.

pub mod codec;
pub mod ingest;
pub mod laws;
pub mod pager;
pub mod record;
pub mod seq_facts;
pub mod session;
pub mod store;
