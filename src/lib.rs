//! Consistency and translation engine of a time-series storage adapter.
//!
//! Keyed change events (put / delete) are persisted as rows of a series
//! store, deletions are recorded as tombstone rows, stale writes are rejected
//! against the latest tombstone, tombstoned keys are reclaimed lazily, and
//! hierarchical key patterns with optional time ranges are translated into
//! the store's query language.
pub mod config;
pub mod ingest;
pub mod laws;
pub mod pattern;
pub mod quote_laws;
pub mod stamp;
pub mod statements;
pub mod store;
pub mod text;
pub mod timerange;
