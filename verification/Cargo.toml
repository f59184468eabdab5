[package]
name = "m3u8_core"
version = "0.1.0"
edition = "2021"
publish = false

[dependencies]
aes = "0.8"
anyhow = "1"
cbc = { version = "0.1", features = ["alloc"] }
chrono = "0.4"
cipher = { version = "0.4", features = ["alloc", "block-padding"] }
fern = "*"
log = "0.4"
rand = { version = "0.8", features = ["small_rng"] }
reqwest = { version = "0.12", default-features = false }
serde = { version = "1", features = ["derive"] }
serde_json = "1"
sysinfo = "0.29"
tokio = { version = "1", features = ["full"] }
