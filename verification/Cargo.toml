[package]
name = "pve-san-fenced"
version = "0.1.0"
edition = "2021"
publish = false

[dependencies]
regex = "1"
serde_json = "1"
serde = { version = "1", features = ["derive"] }
clap = { version = "4", features = ["derive", "env"] }
tokio = { version = "1", features = ["rt", "sync", "macros", "time", "fs"] }
env_logger = "*"
log = "0.4"
lsblk = "0.6"
thiserror = "1"
