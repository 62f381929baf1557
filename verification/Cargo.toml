[package]
name = "naia_socket"
version = "0.1.0"
edition = "2021"
publish = false

[dependencies]
anyhow = "1"
async-channel = "1"
async-io = "1"
atomic-counter = "1"
base64 = "0.13"
bytes = "1"
futures-channel = "0.3"
futures-util = "0.3"
log = "0.4"
reqwest = { version = "0.11", default-features = false, features = ["rustls-tls"] }
serde_json = "1"
thiserror = "1"
tinyjson = "2"
tokio = { version = "1", features = ["rt-multi-thread", "sync", "time", "macros"] }
webrtc = "0.6"
