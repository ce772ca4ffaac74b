[package]
name = "translate"
version = "0.1.0"
edition = "2021"
publish = false

[dependencies]
fuzzy-matcher = "0.3"
serde_json = "1"
serde = { version = "1", features = ["derive"] }
ron = "0.8"
reqwest = { version = "0.11", default-features = false, features = ["json", "rustls-tls"] }
tokio = { version = "1", features = ["rt-multi-thread"] }
futures = "0.3"
abi_stable = "0.11"
anyrun-plugin = "*"
