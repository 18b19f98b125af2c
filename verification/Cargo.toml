[package]
name = "wvw_overview"
version = "0.1.0"
edition = "2021"
publish = false

[dependencies]
unicode-normalization = "*"
tokio = { version = "*", features = ["rt-multi-thread", "macros", "sync", "time", "net"] }
axum = "*"
reqwest = { version = "*", default-features = false, features = ["json", "rustls-tls"] }
sqlx = { version = "*", default-features = false, features = ["runtime-tokio", "sqlite", "macros"] }
serde = { version = "*", features = ["derive"] }
serde_json = "*"
clap = { version = "*", features = ["derive"] }
chrono = "*"
futures = "*"
tower-http = { version = "*", features = ["compression-full"] }
