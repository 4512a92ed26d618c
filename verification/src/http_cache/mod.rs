//! The HTTP cache.
pub mod cache;
pub mod delivery;
pub mod disk;
pub mod front;
pub mod inflight;
pub mod key;
pub mod lookup;
pub mod memory_store;
pub mod policy;
pub mod range;
pub mod store;
pub mod tee;
