//! The decision-making core of a browser engine's resource layer: the HTTP
//! cache, client storage, and zero-copy canvas presentation.
pub mod canvas;
pub mod digest;
pub mod directives;
pub mod fetch;
pub mod fields;
pub mod http_cache;
pub mod http_cache_disk;
pub mod http_cache_semantics;
pub mod http_cache_store;
pub mod layout;
pub mod le;
pub mod live;
pub mod numbered;
pub mod resource;
pub mod resource_cache;
pub mod storage;
pub mod text;
pub mod time;
