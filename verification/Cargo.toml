[package]
name = "offloadmq"
version = "0.1.0"
edition = "2021"
publish = false

[dependencies]
anyhow = "=1.0.104"
axum = { version = "=0.8.9", features = ["ws"] }
bcrypt = "=0.17.1"
chrono = { version = "=0.4.45", features = ["serde"] }
dotenvy = "=0.15.7"
env_logger = "=0.11.11"
hyper = "=1.12.0"
indexmap = "=2.14.2"
jsonwebtoken = "=9.3.1"
log = "=0.4.34"
lru_time_cache = "=0.11.11"
rand = "=0.9.5"
rmp-serde = "=1.3.1"
serde = { version = "=1.0.229", features = ["derive"] }
serde_json = "=1.0.154"
sled = "=0.34.7"
thiserror = "=2.0.21"
tokio = { version = "=1.54.1", features = ["full"] }
tower-http = { version = "=0.6.11", features = ["trace"] }
tracing = "=0.1.44"
ulid = "=1.2.1"
uuid = { version = "=1.29.0", features = ["v4"] }
