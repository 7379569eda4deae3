[package]
name = "sysconfig"
version = "0.1.0"
edition = "2021"
publish = false

[dependencies]
kdl = "=4.7.1"
sha2 = "=0.10.9"
uuid = { version = "=1.29.0", features = ["v4"] }
chrono = { version = "=0.4.45", default-features = false, features = ["clock", "std"] }
base64 = "=0.13.1"
serde = { version = "=1.0.229", features = ["derive"] }
serde_json = "=1.0.154"
serde_yaml = "=0.9.34"
toml = "=0.8.23"
anyhow = "=1.0.104"
clap = { version = "=4.6.7", features = ["derive"] }
tokio = { version = "=1.54.1", features = ["rt-multi-thread", "macros", "fs", "time"] }
tracing = "=0.1.44"
reqwest = { version = "0.12", default-features = false }
libc = "0.2"
