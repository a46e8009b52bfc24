[package]
name = "novel_core"
version = "0.1.0"
edition = "2021"
publish = false

[dependencies]
similar = { version = "=3.2.1", features = ["inline"] }
uuid = { version = "=1.29.0", features = ["v4"] }
serde = { version = "=1.0.229", features = ["derive"] }
serde_json = "=1.0.154"
chrono = "=0.4.45"
keyring = "=3.6.3"
thiserror = "=2.0.21"
reqwest = { version = "0.12", default-features = false, features = ["rustls-tls", "json", "stream"] }
futures = "0.3"
