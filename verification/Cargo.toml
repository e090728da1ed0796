[package]
name = "bus_predictions"
version = "0.1.0"
edition = "2021"
publish = false

[dependencies]
chrono = "*"
serde = { version = "*", features = ["derive"] }
serde_json = "*"
axum = "*"
tokio = { version = "*", features = ["macros", "rt-multi-thread", "signal", "net", "sync"] }
reqwest = { version = "*", default-features = false }
tower-http = { version = "*", features = ["cors"] }
dotenvy = "*"
