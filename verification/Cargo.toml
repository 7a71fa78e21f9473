[package]
name = "rmux"
version = "0.1.0"
edition = "2021"
publish = false

[dependencies]
avt = "=0.17.0"
base64 = "=0.22.1"
clap = { version = "4", features = ["derive"] }
crossterm = "=0.29.0"
dirs = "=7.0.0"
interprocess = { version = "2", features = ["tokio"] }
nix = { version = "=0.31.3", features = ["fs"] }
portable-pty = "=0.9.0"
rustix = { version = "1", features = ["fs", "process"] }
serde = { version = "1", features = ["derive"] }
serde_json = "1"
sha2 = "=0.10.9"
thiserror = "2"
tokio = { version = "1", features = ["full"] }
uuid = { version = "=1.29.0", features = ["v4", "v5"] }
