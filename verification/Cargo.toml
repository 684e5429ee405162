[package]
name = "alfred_github"
version = "0.1.0"
edition = "2021"
publish = false

[dependencies]
indexmap = "=2.14.2"
wildmatch = "=2.6.1"
octocrab = "=0.40.0"
tokio = { version = "=1.53.2", features = ["fs", "macros", "rt-multi-thread", "process"] }
eyre = "=0.6.14"
serde = { version = "=1.0.229", features = ["derive"] }
serde_json = "=1.0.151"
serde_yaml = "=0.9.34"
toml = "=1.1.6"
dirs = "=7.0.0"
chrono = "=0.4.45"
futures = "=0.3.34"
reqwest = { version = "=0.13.5", default-features = false }
open = "=5.4.4"
edit = "=0.1.5"
