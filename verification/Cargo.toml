[package]
name = "digikam_browse"
version = "0.1.0"
edition = "2021"
publish = false

[dependencies]
anyhow = "1"
axum = "0.7"
clap = { version = "4", features = ["derive", "env"] }
maud = { version = "0.26", features = ["axum"] }
mime_guess = "2"
r2d2 = "0.8"
r2d2_sqlite = "0.24"
reqwest = { version = "0.12", default-features = false, features = ["multipart", "json", "rustls-tls"] }
rusqlite = { version = "0.31", features = ["bundled", "collation", "trace"] }
serde = { version = "1", features = ["derive"] }
serde_json = "1"
tokio = { version = "1", features = ["full"] }
tower = { version = "0.4", features = ["util"] }
tower-http = { version = "0.5", features = ["fs", "trace"] }
tracing = "0.1"
tracing-subscriber = { version = "0.3", features = ["env-filter"] }
urlencoding = "2"
