[package]
name = "pg_variant"
version = "0.1.0"
edition = "2021"
publish = false

[dependencies]
anyhow = "1"
axum = "0.8"
figment = { version = "0.10", features = ["toml", "env"] }
futures = "0.3"
r2d2 = "0.8"
redis = { version = "0.27", default-features = false, features = ["r2d2"] }
serde = { version = "1", features = ["derive"] }
serde_json = "1"
sqlx = { version = "0.8", default-features = false, features = ["postgres", "runtime-tokio", "json"] }
tokio = { version = "1", features = ["rt-multi-thread", "macros", "net", "sync"] }
toml = "0.8"
tracing = "0.1"
tracing-subscriber = { version = "0.3", features = ["env-filter", "json"] }
