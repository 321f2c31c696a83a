[package]
name = "gtc_control"
version = "0.1.0"
edition = "2021"
publish = false

[dependencies]
clap = { version = "4", features = ["derive"] }
crossterm = { version = "0.28", features = ["event-stream"] }
dirs = "6"
futures-util = "0.3"
ratatui = "0.29"
serde = { version = "1", features = ["derive"] }
serde_norway = "0.9"
thiserror = "2"
tokio = { version = "1", features = ["macros", "net", "rt-multi-thread", "sync", "time"] }
tokio-modbus = { version = "0.16", default-features = false, features = ["tcp"] }
tracing = "0.1"
tracing-subscriber = { version = "0.3", features = ["env-filter"] }
