[package]
name = "sysctrl"
version = "0.1.0"
edition = "2021"
publish = false

[dependencies]
anyhow = "1"
serde = { version = "1", features = ["derive"] }
serde_json = "1"
sysinfo = "*"
nvml-wrapper = "*"
tokio = { version = "1", features = ["time", "rt", "macros"] }
