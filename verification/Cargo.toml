[package]
name = "backend"
version = "0.1.0"
edition = "2021"
publish = false

[dependencies]
rand = "=0.8.8"
serde = { version = "=1.0.229", features = ["derive"] }
serde_json = "=1.0.154"
config = "=0.14.1"
reqwest = { version = "=0.11.27", default-features = false, features = ["json", "rustls-tls"] }
tokio = { version = "=1.54.1", features = ["time", "rt-multi-thread", "macros"] }
async-recursion = "=1.2.0"
anyhow = "=1.0.104"
easybench = "1"
