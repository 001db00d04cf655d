[package]
name = "nyaa_notifications"
version = "0.1.0"
edition = "2021"
publish = false

[dependencies]
chrono = "=0.4.45"
html-escape = "=0.2.15"
serde = { version = "*", features = ["derive"] }
serde_json = "*"
toml = "*"
regex = "*"
isahc = "*"
lettre = { version = "*", default-features = false, features = ["builder", "hostname", "smtp-transport", "pool", "tokio1", "tokio1-rustls-tls"] }
serenity = "*"
sqlx = { version = "*", default-features = false, features = ["runtime-tokio", "sqlite"] }
tokio = { version = "*", features = ["full"] }
log = "*"
env_logger = "*"
lazy_static = "*"
