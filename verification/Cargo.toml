[package]
name = "auth_api"
version = "0.1.0"
edition = "2021"
publish = false

[dependencies]
url = "=2.5.8"
axum = "=0.8.9"
tokio = { version = "=1.53.2", features = ["macros", "rt-multi-thread", "signal"] }
reqwest = { version = "=0.12.28", default-features = false }
dotenvy = "0.15"
tracing = "0.1"
tracing-subscriber = { version = "0.3", features = ["env-filter"] }
