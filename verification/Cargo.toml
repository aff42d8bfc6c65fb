[package]
name = "ra_updater"
version = "0.1.0"
edition = "2021"
publish = false

[dependencies]
anyhow = "1"
bytes = "1"
clap = { version = "*", features = ["derive"] }
crossbeam = "*"
dirs-next = "2"
flate2 = "1"
reqwest = { version = "*", default-features = false, features = ["blocking"] }
serde_json = "1"
tokio = { version = "1", features = ["rt-multi-thread", "sync"] }
