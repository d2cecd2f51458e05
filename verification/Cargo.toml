[package]
name = "liven"
version = "0.1.0"
edition = "2021"
publish = false

[dependencies]
crc32fast = "=1.5.4"
crossbeam-skiplist = "=0.1.3"
rand = "=0.8.8"
serde = { version = "=1.0.229", features = ["derive"] }
serde_json = "=1.0.154"
rmp-serde = "=1.3.1"
bytes = "=1.12.1"
tokio-util = { version = "=0.7.20", features = ["codec"] }
thiserror = "=1.0.69"
base64 = "=0.22.1"
crossterm = "0.28"
