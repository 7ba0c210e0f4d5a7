//! Listening-history ingestion and yearly recap statistics.
//!
//! The library holds the logic of the pipeline: normalising artist and track
//! names, turning decoded repository records into play events, merging them
//! idempotently into a store with metadata inheritance, the refresh-and-retry
//! policy for derived views, the per-user and platform-wide statistics, and
//! the taste-similarity ranking.

pub mod names;
pub mod time;
pub mod record;
pub mod play;
pub mod store;
pub mod span;
pub mod stats;
pub mod group;
pub mod wrapped;
pub mod percentile;
pub mod similar;
pub mod global;
pub mod refresh;
