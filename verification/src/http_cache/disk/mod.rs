//! The on-disk side of the cache.
pub mod entry;
pub mod index;
pub mod index_file;
pub mod io;
pub mod disk_store;
