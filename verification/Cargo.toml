[package]
name = "wssh_client"
version = "0.1.0"
edition = "2021"
publish = false

[dependencies]
tokio = { version = "1", features = ["rt-multi-thread", "macros", "io-util", "io-std", "net", "fs", "time"] }
tokio-tungstenite = "0.20"
russh = "0.44"
russh-keys = "0.44"
russh-sftp = "2"
crossterm = "0.27"
signal-hook = "0.3"
signal-hook-tokio = { version = "0.3", features = ["futures-v0_3"] }
futures = "0.3"
futures-util = "0.3"
hyper = { version = "0.14", features = ["client", "http1", "tcp"] }
serde = { version = "1", features = ["derive"] }
serde_json = "1"
clap = { version = "4", features = ["derive"] }
env_logger = "0.10"
log = "0.4"
chrono = "0.4"
bytes = "1"
async-trait = "0.1"
libc = "0.2"
tower-service = "0.3"
tokio-vsock = "0.5"
