[package]
name = "stratum"
version = "0.1.0"
edition = "2021"
publish = false

[dependencies]
ahash = "*"
lz4 = "*"
glam = { version = "*", features = ["serde"] }
serde = { version = "*", features = ["derive"] }
serde_json = "*"
thiserror = "*"
log = "*"
tokio = { version = "*", features = ["rt", "sync", "fs"] }
