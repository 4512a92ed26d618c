# browser_core

Logic of a browser's network, storage and canvas services, verified with Verus.

* `src/http_cache/` is the HTTP cache: keys, freshness, ranges, the store in memory, the store
  of files with its index and entry format, and what the cache decides for a fetch (`front`).
* `src/resource_cache.rs`, `src/resource.rs`, `src/http_cache_store.rs` and
  `src/http_cache_disk.rs` are the cache of live resources and its stores.
* `src/storage/` is client storage: the registry of buckets, indexed databases and web storage.
  An operation is a function of the replies that a database has given so far; it says what to
  ask next, or what it came to.
* `src/canvas/` decides how a canvas is presented and which images stay uploaded.

`app/` is the ordinary Rust around the library: files, threads, databases, the drawing library
of the platform and floating point.
`tests/` runs the library.

The names that stand for what outside crates compute, and the functions that call those crates,
are in `fields.rs`, `digest.rs`, `http_cache/policy.rs`, `http_cache/lookup.rs`,
`http_cache/disk/index.rs`, `http_cache/disk/index_file.rs`, `http_cache_store.rs`,
`storage/blob_text.rs`, `storage/client_storage.rs` and `storage/key_path.rs`. Their doc comments
say what is taken for granted.
