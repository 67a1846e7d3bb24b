[package]
name = "sui_fuzzer"
version = "0.1.0"
edition = "2021"
publish = false

[dependencies]
bichannel = "=0.0.4"
chrono = "=0.4.45"
clap = { version = "=4.5.61", features = ["derive"] }
rand = "=0.8.8"
serde = { version = "=1.0.229", features = ["derive"] }
serde_json = "=1.0.151"
