[package]
name = "primusdb"
version = "0.1.0"
edition = "2021"
publish = false

[dependencies]
bincode = "=1.3.3"
sha2 = "=0.10.9"
hex = "=0.4.3"
serde = { version = "=1.0.229", features = ["derive"] }
serde_json = "=1.0.154"
uuid = { version = "=1.29.0", features = ["v4", "serde"] }
chrono = { version = "=0.4.45", features = ["serde"] }
tokio = { version = "=1.54.1", features = ["sync", "rt", "macros", "time", "net", "io-util"] }
tracing = "=0.1.44"
aes-gcm = "0.10"
argon2 = "0.5"
ring = "0.17"
sha3 = "0.10"
blake3 = "1"
base64 = "0.22"
sled = "0.34"
reqwest = { version = "0.12", default-features = false, features = ["json"] }
prometheus = { version = "0.13", default-features = false }
lazy_static = "1"
thiserror = "1"
async-trait = "0.1"
futures = "0.3"
num_cpus = "1"
