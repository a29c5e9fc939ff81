[package]
name = "hgame_launcher"
version = "0.1.0"
edition = "2021"
publish = false

[dependencies]
scraper = "*"
chrono = "*"
serde = { version = "1", features = ["derive"] }
serde_json = "1"
thiserror = "*"
reqwest = { version = "*", default-features = false, features = ["rustls-tls"] }
tokio = { version = "1", features = ["full"] }
futures = "*"
tracing = "*"
tracing-subscriber = "*"
anyhow = "*"
sea-orm = { version = "*", default-features = false, features = ["sqlx-sqlite", "runtime-tokio-rustls", "macros"] }
sea-orm-migration = { version = "*", default-features = false, features = ["sqlx-sqlite", "runtime-tokio-rustls"] }
sqlx = { version = "*", default-features = false, features = ["sqlite", "runtime-tokio", "macros"] }
async-trait = "*"
dirs = "*"
