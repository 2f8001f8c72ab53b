//! Verified core of a message-board contract indexer.
//!
//! The library extracts typed domain events and upgrade records from raw
//! transaction payloads, reduces them into per-user aggregate deltas, and
//! models the conflict-aware, chunked merge of those records into the
//! relational tables, so that idempotent replay, monotonic ordering and
//! exactly-once aggregate accounting can be stated and proved.

pub mod changes;
pub mod config;
pub mod digits;
pub mod errors;
pub mod events;
pub mod executor;
pub mod extractor;
pub mod json;
pub mod keyed;
pub mod laws;
pub mod ledger;
pub mod message;
pub mod raw;
pub mod reduce;
pub mod store;
pub mod text;
pub mod upgrade;
pub mod upgrade_store;
pub mod user_stat;
