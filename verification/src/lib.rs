//! An incremental-ingestion engine for board listing pages: per-source
//! parsers over a trusted markup-extraction boundary, a staleness classifier
//! with time-windowed expiry, a freshness-priority merge/dedup engine, and
//! the decision logic of the one-shot download cascade. Fetching, persistence
//! and the cycle timer live outside the library and hand it plain values.

pub mod cascade;
pub mod extract;
pub mod merge;
pub mod models;
pub mod parse;
pub mod route;
pub mod stale;
pub mod text;
