[package]
name = "rocprobe"
version = "0.3.1"
edition = "2021"
publish = false

[dependencies]
anyhow = "1"
clap = { version = "4", features = ["derive"] }
colored = "2"
csv = "1"
serde = { version = "1", features = ["derive"] }
serde_json = "1"
