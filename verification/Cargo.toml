[package]
name = "vote_service"
version = "0.1.0"
edition = "2021"
publish = false

[dependencies]
anyhow = "=1.0.104"
deadpool = "=0.9.5"
diesel = { version = "=2.1.6", features = ["uuid"] }
diesel-async = { version = "=0.4.1", features = ["postgres", "deadpool", "async-connection-wrapper"] }
diesel_migrations = "=2.1.0"
dotenvy = "=0.15.7"
env_logger = "=0.10.2"
futures-util = "=0.3.34"
log = "=0.4.34"
rustls = "=0.21.12"
rustls-native-certs = "=0.6.3"
serde = { version = "=1.0.229", features = ["derive"] }
tokio = { version = "=1.53.2", features = ["macros", "rt-multi-thread"] }
tokio-postgres = "=0.7.18"
tokio-postgres-rustls = "=0.10.0"
uuid = { version = "=1.27.0", features = ["serde", "v4"] }
warp = "=0.3.7"
