//! Verified core of a personal-finance synchronization tool.
//!
//! The library models bank transactions as plain records, proves a total
//! order over them, and verifies the synchronization pipeline: windowed
//! query construction, per-account fetch outcome handling, merging the
//! per-account results into one chronologically ordered sequence, and an
//! idempotent merge into the persisted store.

pub mod cli;
pub mod client;
pub mod model;
pub mod order;
pub mod sort;
pub mod store;
pub mod sync;
pub mod window;
