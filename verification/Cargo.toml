[package]
name = "tg_trainer"
version = "0.1.0"
edition = "2021"
publish = false

[dependencies]
chrono = { version = "=0.4.45", features = ["serde"] }
chrono-tz = "=0.10.4"
uuid = { version = "=1.29.1", features = ["v4"] }
teloxide = { version = "=0.17.0", features = ["macros"] }
takecell = "=0.1.1"
tokio = { version = "=1.54.1", features = ["full"] }
sqlx = { version = "=0.8.6", features = ["sqlite", "runtime-tokio", "chrono", "uuid"] }
reqwest = { version = "=0.12.28", features = ["json"] }
serde = { version = "=1.0.229", features = ["derive"] }
serde_json = "=1.0.154"
dotenvy = "=0.15.7"
thiserror = "=2.0.21"
