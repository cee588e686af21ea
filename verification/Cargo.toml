[package]
name = "leani_history"
version = "0.1.0"
edition = "2021"
publish = false

[dependencies]
alloy-consensus = { version = "1", default-features = false, features = ["std", "k256"] }
alloy-eips = { version = "1", default-features = false, features = ["std"] }
alloy-primitives = { version = "1", default-features = false, features = ["std"] }
alloy-rlp = { version = "0.3", default-features = false, features = ["std"] }
arrow-array = { version = "*", default-features = false }
async-trait = "0.1"
blake3 = "1"
bytes = "1"
flate2 = "1"
futures = { version = "0.3", default-features = false, features = ["std", "async-await"] }
hex = "0.4"
object_store = { version = "*", default-features = false }
parquet = { version = "*", default-features = false, features = ["arrow", "async", "object_store", "snap", "zstd"] }
postcard = { version = "1", features = ["alloc"] }
semver = "1"
serde = { version = "1", features = ["derive"] }
sha2 = "0.10"
snap = "1"
sqlx = { version = "0.8", default-features = false, features = ["runtime-tokio", "sqlite"] }
thiserror = "2"
tokio = { version = "1", features = ["rt", "rt-multi-thread", "sync", "fs", "io-util", "macros", "time"] }
tokio-util = "0.7"
url = "2"
