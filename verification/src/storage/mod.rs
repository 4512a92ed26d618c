//! Client storage: the registry of buckets and bottles, the object stores and the
//! key-value stores of a page, all kept in a relational database.
//!
//! The database is asked one request at a time. An operation is a function of the replies
//! that it was given so far: it says what to ask next, or what it came to.
pub mod blob_text;
pub mod client_storage;
pub mod client_storage_shared;
pub mod condition;
pub mod key_path;
pub mod object_data;
pub mod object_store;
pub mod ohos_rdb;
pub mod sql;
pub mod webstorage;
