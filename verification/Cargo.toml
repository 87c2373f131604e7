[package]
name = "zaz"
version = "0.1.0"
edition = "2021"
publish = false

[dependencies]
anyhow = "1"
clap = { version = "4", features = ["derive"] }
globset = "0.4"
indexmap = { version = "2", features = ["serde"] }
nix = { version = "0.29", features = ["signal", "process"] }
notify-rust = "4"
portable-pty = "0.8"
rmcp = { version = "*", features = ["server", "transport-io"] }
rusqlite = { version = "0.32", features = ["bundled"] }
schemars = "1"
serde = { version = "1", features = ["derive"] }
serde_json = "1"
strsim = "0.11"
thiserror = "2"
tokio = { version = "1", features = ["full"] }
toml = "0.8"
tracing = "0.1"
tracing-subscriber = "0.3"
