//! Per-request rate limiting: request attributes are turned into a key/value
//! context, the configured limits that apply to it are counted against a table
//! of counters restored from a byte snapshot, and the request is admitted
//! (and the table persisted) or rejected.

pub mod kv;
pub mod keys;
pub mod limits;
pub mod counters;
pub mod engine;
pub mod snapshot;
pub mod filter;
