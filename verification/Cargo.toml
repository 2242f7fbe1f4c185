[package]
name = "job_ingest"
version = "0.1.0"
edition = "2021"
publish = false

[dependencies]
serde_json = { version = "=1.0.151", features = ["raw_value"] }
memchr = "=2.8.3"
reqwest = { version = "=0.12.28", default-features = false, features = ["stream"] }
tokio = { version = "=1.53.2", features = ["rt", "rt-multi-thread", "macros", "io-util"] }
futures = "=0.3.34"
async-compression = { version = "=0.4.50", features = ["tokio", "gzip"] }
url = "=2.5.8"
bytes = "=1.12.1"
