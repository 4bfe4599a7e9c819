[package]
name = "thicket"
version = "0.1.0"
edition = "2021"
publish = false

[dependencies]
axum = "0.7"
regex = "1"
reqwest = { version = "0.12", default-features = false, features = ["json", "charset", "http2", "rustls-tls"] }
rusqlite = { version = "0.32", features = ["bundled"] }
scraper = "0.20"
serde = { version = "1", features = ["derive"] }
serde_json = "1"
tokio = { version = "1", features = ["full"] }
tower = "0.5"
tower-http = { version = "0.6", features = ["fs"] }
