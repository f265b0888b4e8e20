//! Ingestion and aggregation pipeline for aim-trainer performance logs.
//!
//! The library parses delimited log files into typed records, fingerprints
//! a parsed run so that re-ingesting identical content is a no-op, persists
//! runs in a relational in-memory store, and folds stored rows into nested
//! summary trees.

pub mod aggregate;
pub mod events;
pub mod fingerprint;
pub mod laws;
pub mod parse;
pub mod records;
pub mod store;
