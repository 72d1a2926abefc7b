[package]
name = "aimdb"
version = "0.1.0"
edition = "2021"
publish = false

[dependencies]
serde = { version = "1", features = ["derive"] }
serde_json = { version = "1", features = ["raw_value"] }
postcard = { version = "1", features = ["alloc"] }
tokio = { version = "1", features = ["net", "io-util", "rt", "sync", "time"] }
async-channel = "2"
futures-channel = "0.3"
futures-util = "0.3"
futures-core = "0.3"
hashbrown = "*"
rand = "*"
spin = "*"
