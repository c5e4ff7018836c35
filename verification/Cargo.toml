[package]
name = "cxdb"
version = "0.1.0"
edition = "2021"
publish = false

[dependencies]
serde = { version = "=1.0.229", features = ["derive"] }
serde_json = "=1.0.154"
regex = "=1.13.1"
chrono = { version = "=0.4.45", default-features = false, features = ["alloc", "std"] }
glob = "=0.3.4"
blake3 = "=1.8.7"
rmp-serde = "=1.3.1"
crc32fast = "=1.5.4"
zstd = "=0.13.4"
uuid = { version = "=1.29.0", features = ["v4"] }
whoami = "=1.6.1"
crossbeam-channel = "=0.5.17"
ctrlc = "=3.5.2"
rmpv = "1"
base64 = "0.22"
hex = "0.4"
