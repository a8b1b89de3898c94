[package]
name = "kovre"
version = "0.1.0"
edition = "2021"
publish = false

[dependencies]
globset = "=0.4.21"
sha2 = "=0.10.9"
jiff = "=0.2.39"
lithair-core = "=1.21.0"
serde = { version = "1", features = ["derive"] }
serde_yaml = "*"
serde_json = "*"
indexmap = { version = "2", features = ["serde"] }
anyhow = "1"
thiserror = "*"
tracing = "*"
tracing-subscriber = { version = "*", features = ["env-filter"] }
clap = { version = "4", features = ["derive"] }
tokio = { version = "1", features = ["full"] }
uuid = { version = "1", features = ["v4"] }
getrandom = "0.2"
atomicwrites = "*"
arc-swap = "*"
walkdir = "2"
dirs = "*"
