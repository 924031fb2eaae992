[package]
name = "mbsim"
version = "0.1.0"
edition = "2021"
publish = false

[dependencies]
anyhow = "1"
clap = { version = "4", features = ["derive"] }
futures = "0.3"
serde = { version = "1", features = ["derive"] }
serde_yaml = "0.9"
thiserror = "1"
tokio = { version = "1", features = ["rt", "macros", "sync", "time", "signal", "net"] }
tokio-modbus = { version = "0.5", default-features = false, features = ["tcp-server-unstable"] }
