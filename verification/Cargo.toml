[package]
name = "tokad"
version = "0.1.0"
edition = "2021"
publish = false

[dependencies]
blake3 = "1"
circular-queue = "*"
clap = { version = "4", features = ["derive"] }
crossterm = { version = "0.29", features = ["event-stream"] }
futures = "0.3"
prost = "*"
rand = "0.9"
ratatui = "*"
tokio = { version = "1", features = ["macros", "net", "rt", "sync", "time"] }
tonic = "*"
tonic-prost = "*"
tracing = "0.1"
tracing-subscriber = "0.3"
tui-input = "*"
tui-tracing = "*"
