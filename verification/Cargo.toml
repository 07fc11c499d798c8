[package]
name = "muna_server"
version = "0.0.11"
edition = "2021"
publish = false

[dependencies]
async-channel = "=2.5.0"
async-trait = "=0.1.92"
axum = "=0.8.9"
base64 = "=0.22.1"
bytes = "=1.12.1"
clap = { version = "=4.6.7", features = ["derive", "env"] }
dashmap = "=6.2.1"
dotenvy = "=0.15.7"
futures-util = "=0.3.34"
indicatif = "=0.18.6"
libc = "=0.2.191"
libloading = "=0.9.0"
muna = "=0.0.26"
nvml-wrapper = "=0.13.0"
objc2 = "0.6"
objc2-metal = "0.3"
reqwest = { version = "=0.12.28", default-features = false, features = ["json", "rustls-tls"] }
serde = { version = "=1.0.229", features = ["derive"] }
serde_json = "=1.0.154"
tokio = { version = "=1.54.1", features = ["full"] }
tokio-util = "=0.7.20"
tower-http = { version = "=0.6.11", features = ["cors"] }
tracing = "=0.1.44"
tracing-subscriber = { version = "=0.3.23", features = ["env-filter"] }
zeromq = "=0.7.0"
