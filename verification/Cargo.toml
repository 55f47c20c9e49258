[package]
name = "gpx_merge"
version = "0.1.0"
edition = "2021"
publish = false

[dependencies]
gpx = "*"
blake3 = "*"
axum = { version = "*", features = ["multipart"] }
clap = { version = "*", features = ["derive"] }
serde = { version = "*", features = ["derive"] }
serde_json = "*"
tokio = { version = "*", features = ["rt-multi-thread", "net", "macros"] }
time = "*"
