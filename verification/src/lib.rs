//! Adaptive batching scheduler for search-index upserts.
//!
//! Producers enqueue documents for named indexes; a single worker flushes
//! them in batches, pacing itself by the observed duration of recent
//! indexing jobs.  This crate holds the decisions of that worker, each with
//! a machine-checked contract; the asynchronous plumbing around them lives
//! with the embedding program.

pub mod bootstrap;
pub mod client;
pub mod error;
pub mod interval;
pub mod laws;
pub mod queue;
pub mod scheduler;
pub mod timing;
pub mod window;
