[package]
name = "prk_eventbus"
version = "0.1.0"
edition = "2021"
publish = false

[dependencies]
uuid = { version = "1", features = ["v4", "serde"] }
chrono = "0.4"
tokio = { version = "1", features = ["full"] }
axum = { version = "0.8", features = ["ws"] }
axum-server = { version = "0.7", features = ["tls-rustls"] }
futures = "0.3"
futures-util = { version = "0.3", features = ["sink"] }
serde = { version = "1", features = ["derive"] }
serde_json = "1"
sqlx = { version = "0.8", default-features = false, features = ["sqlite", "runtime-tokio", "migrate"] }
thiserror = "2"
anyhow = "1"
async-trait = "0.1"
bytes = { version = "1", features = ["serde"] }
tokio-tungstenite = "0.24"
tracing = "0.1"
