//! Lazy objects: large virtual regions whose contents are computed on demand
//! by a population function, evicted under memory pressure with writeback of
//! modified chunks, and restored transparently on the next access.
//!
//! The engine is portable: it works against a fault-channel abstraction that
//! reserves regions and installs or removes backing for ranges of cells, and
//! against a spill table that persists evicted, modified chunk contents.

pub mod chunk;
pub mod config;
pub mod engine;
pub mod errors;
pub mod fault;
pub mod handle;
pub mod object;
pub mod populate;
pub mod seq_sum;
pub mod store;
pub mod waiter;
