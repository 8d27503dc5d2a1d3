[package]
name = "sys_tools"
version = "0.1.0"
edition = "2021"
publish = false

[dependencies]
anyhow = "1"
axum = "0.7"
clap = "4"
futures = "0.3"
prettytable-rs = "0.10"
psutil = "3"
ratatui = "0.26"
rayon = "1"
serde = { version = "1", features = ["derive"] }
serde_json = "1"
serde-xml-rs = "0.6"
sysinfo = "0.30"
tokio = { version = "1", features = ["full"] }
tower = { version = "0.4", features = ["timeout", "util"] }
tower-http = { version = "0.5", features = ["add-extension", "trace"] }
tracing = "0.1"
tracing-subscriber = { version = "0.3", features = ["env-filter"] }
