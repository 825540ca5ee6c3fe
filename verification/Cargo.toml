[package]
name = "otap_pipeline"
version = "0.1.0"
edition = "2021"
publish = false

[dependencies]
arrow = "53"
arrow-array = "53"
arrow-ipc = "53"
arrow-schema = "53"
base64 = "=0.22.1"
datafusion = { version = "44", default-features = false, features = ["parquet"] }
futures = "0.3"
object_store = "0.11"
parquet = { version = "53", features = ["arrow", "async", "object_store"] }
serde = { version = "1", features = ["derive"] }
serde_json = "1"
tokio = { version = "1", features = ["rt-multi-thread", "macros", "fs", "io-util"] }
zstd = "=0.13.3"

[dev-dependencies]
prost = { version = "=0.13.5", default-features = false, features = ["std"] }
