[package]
name = "browser_core"
version = "0.1.0"
edition = "2021"
publish = false

[dependencies]
bytes = "=1.12.1"
crc32fast = "=1.5.4"
futures-util = "=0.3.34"
headers = "=0.4.2"
http = "=1.5.0"
http-body = "=1.1.0"
http-cache-semantics = "=3.0.0"
libc = "0.2"
ohos-drawing = { version = "=0.0.1", features = ["native-image"] }
ohos-rdb-sys = { version = "=0.1.1", features = ["api-18"] }
parking_lot = "=0.12.5"
postcard = { version = "=1.1.3", features = ["use-std"] }
quick_cache = "=0.7.0"
rusqlite = { version = "=0.41.1", features = ["bundled"] }
serde = { version = "=1.0.229", features = ["derive"] }
serde_json = "=1.0.154"
sha1 = "=0.10.7"
sha2 = "=0.10.9"
tempfile = "=3.27.0"
tokio = { version = "=1.54.1", features = ["sync", "rt", "macros", "time"] }
tokio-util = "=0.7.20"
url = "=2.5.8"
uuid = { version = "=1.29.0", features = ["v4"] }
