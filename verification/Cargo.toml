[package]
name = "docfresh"
version = "0.1.0"
edition = "2021"
publish = false

[dependencies]
chrono = "0.4"
clap = { version = "4", features = ["derive", "env"] }
colored = "2"
glob = "0.3"
serde = { version = "1", features = ["derive"] }
serde_json = "1"
toml = "0.8"
