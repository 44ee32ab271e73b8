[package]
name = "kmuxd"
version = "0.1.0"
edition = "2021"
publish = false

[dependencies]
rand = "=0.10.3"
nix = { version = "=0.31.3", features = ["signal"] }
serde = { version = "1", features = ["derive"] }
toml = "=1.1.8"
anyhow = "1"
clap = { version = "4", features = ["derive"] }
tracing = "0.1"
tokio = { version = "1", features = ["rt", "sync", "io-util", "fs", "time", "macros"] }
quinn = { version = "=0.11.12", default-features = false, features = ["runtime-tokio"] }
tattoy-wezterm-term = "=0.1.0-fork.5"
tattoy-wezterm-surface = "=0.1.0-fork.2"
tattoy-wezterm-escape-parser = "=0.1.0-1"
