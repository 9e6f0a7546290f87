[package]
name = "sohara"
version = "0.1.0"
edition = "2021"
publish = false

[dependencies]
chrono = "0.4"
uuid = { version = "1", features = ["v4"] }
serde = { version = "1", features = ["derive"] }
serde_json = "1"
serde_yaml = "0.9"
tokio = { version = "1", features = ["rt-multi-thread", "macros", "net", "sync", "time", "io-util", "process", "signal", "fs"] }
axum = "0.7"
reqwest = { version = "0.12", default-features = false, features = ["json", "blocking"] }
rusqlite = { version = "0.31", features = ["bundled"] }
quick-js = "0.4"
anyhow = "1"
async-trait = "0.1"
futures = "0.3"
tracing = "0.1"
tracing-subscriber = { version = "0.3", features = ["env-filter"] }
