[package]
name = "backend_rust"
version = "0.1.0"
edition = "2021"
publish = false

[dependencies]
md-5 = "0.10"
serde = { version = "1", features = ["derive"] }
serde_json = "1"
axum = "0.7"
tokio = { version = "1", features = ["full"] }
sqlx = { version = "0.8", default-features = false, features = ["sqlite", "runtime-tokio", "chrono", "macros"] }
chrono = "0.4"
reqwest = { version = "0.12", default-features = false, features = ["rustls-tls"] }
anyhow = "1"
tracing = "0.1"
