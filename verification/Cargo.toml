[package]
name = "memobuild"
version = "0.1.0"
edition = "2021"
publish = false

[dependencies]
anyhow = "*"
axum = "*"
async-trait = "*"
blake3 = "*"
chrono = "*"
flate2 = "*"
futures = "*"
glob = "*"
rand = "*"
reqwest = { version = "*", default-features = false, features = ["json"] }
serde = { version = "*", features = ["derive"] }
serde_json = "*"
sha2 = "*"
tar = "*"
tokio = { version = "*", features = ["rt", "rt-multi-thread", "sync", "time", "macros", "net"] }
walkdir = "*"
