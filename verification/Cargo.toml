[package]
name = "falcon"
version = "0.1.0"
edition = "2021"
publish = false

[dependencies]
anyhow = "=1.0.104"
async-stream = "=0.3.6"
async-trait = "=0.1.92"
axum = { version = "=0.8.9", features = ["ws", "json", "query"] }
bytes = "=1.12.1"
clap = { version = "=4.6.7", features = ["derive"] }
dashmap = "=6.2.1"
futures = "=0.3.34"
hyper = "=1.12.0"
hyper-util = { version = "=0.1.21", features = ["server-auto", "service", "tokio"] }
reqwest = { version = "=0.12.28", default-features = false, features = ["blocking", "json"] }
rustls = { version = "=0.23.46", default-features = false, features = ["ring", "std", "logging", "tls12"] }
serde = { version = "=1.0.229", features = ["derive"] }
serde_json = "=1.0.154"
tempfile = "=3.27.0"
thiserror = "=2.0.21"
tokio = { version = "=1.54.1", features = ["full"] }
tokio-rustls = { version = "=0.26.6", default-features = false, features = ["ring", "logging", "tls12"] }
tokio-stream = "=0.1.19"
tokio-tungstenite = "=0.24.0"
toml = "=0.8.23"
tonic = { version = "=0.12.3", features = ["tls"] }
tower = { version = "=0.5.3", features = ["util"] }
tracing = "=0.1.44"
tracing-subscriber = { version = "=0.3.23", features = ["env-filter"] }
