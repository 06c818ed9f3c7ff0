[package]
name = "served"
version = "0.1.0"
edition = "2021"
publish = false

[dependencies]
anyhow = "=1.0.104"
chrono = "=0.4.45"
clap = { version = "=4.6.7", features = ["derive"] }
crossterm = "=0.28.1"
dotenvy = "=0.15.7"
futures-util = { version = "=0.3.34", features = ["sink"] }
json5 = "=0.4.1"
nix = { version = "=0.29.0", features = ["signal", "process", "fs", "poll", "user"] }
portable-pty = "=0.8.1"
rand = "=0.8.8"
ratatui = "=0.29.0"
serde = { version = "=1.0.229", features = ["derive"] }
serde_json = "=1.0.154"
sysinfo = "=0.33.1"
thiserror = "=2.0.21"
tokio = { version = "=1.54.1", features = ["full"] }
tokio-util = { version = "=0.7.20", features = ["codec"] }
tracing = "=0.1.44"
tracing-subscriber = { version = "=0.3.23", features = ["env-filter"] }
tui-textarea = "=0.7.0"
unicode-segmentation = "=1.13.3"
unicode-width = "=0.2.0"
