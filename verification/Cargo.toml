[package]
name = "places_backend"
version = "0.1.0"
edition = "2021"
publish = false

[dependencies]
axum = "=0.7.9"
axum-extra = { version = "=0.9.6", features = ["typed-header"] }
bb8 = "=0.8.6"
bb8-postgres = "=0.8.1"
env_logger = "=0.11.11"
jsonwebtoken = "=9.3.1"
log = "=0.4.34"
native-tls = "=0.2.18"
postgres-native-tls = "=0.5.3"
reqwest = { version = "=0.12.28", features = ["json"] }
serde = { version = "=1.0.229", features = ["derive"] }
serde_json = "=1.0.154"
tokio = { version = "=1.54.1", features = ["macros", "rt-multi-thread", "net"] }
tokio-postgres = { version = "=0.7.18", features = ["with-uuid-1"] }
tower-http = { version = "=0.5.2", features = ["cors"] }
uuid = { version = "=1.29.0", features = ["v4", "serde"] }

[dev-dependencies]
openssl = "=0.10.81"
