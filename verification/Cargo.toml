[package]
name = "invite_tracker"
version = "0.1.0"
edition = "2021"
publish = false

[dependencies]
anyhow = "1"
async-trait = "0.1"
chrono = "0.4"
comfy-table = { version = "6", default-features = false }
figment = { version = "0.10", features = ["toml", "env"] }
futures = "0.3"
poise = "0.4"
secrecy = { version = "0.8", features = ["serde"] }
serde = { version = "1", features = ["derive"] }
serde_with = "2"
serenity = "0.11"
sqlx = { version = "0.6", features = ["runtime-tokio-rustls", "postgres", "migrate"] }
tokio = { version = "1", features = ["macros", "rt-multi-thread", "sync"] }
tracing = "0.1"
tracing-log = "0.1"
tracing-subscriber = "0.3"
