[package]
name = "inlama"
version = "0.1.0"
edition = "2021"
publish = false

[dependencies]
anyhow = "*"
clap = { version = "*", features = ["derive"] }
clap_complete = "*"
dirs = "*"
env_logger = "*"
futures-util = "*"
reqwest = { version = "*", default-features = false, features = ["stream"] }
serde = { version = "*", features = ["derive"] }
serde_json = "*"
shellexpand = "*"
tokio = { version = "*", features = ["rt-multi-thread", "macros", "sync", "time", "io-util", "io-std"] }
toml = "*"
