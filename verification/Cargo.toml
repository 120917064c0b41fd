[package]
name = "ratewall"
version = "1.0.0"
edition = "2021"
publish = false

[dependencies]
base64 = "0.22"
ed25519-dalek = { version = "2", features = ["pkcs8", "pem", "rand_core"] }
pem-rfc7468 = { version = "0.7", features = ["alloc"] }
rand_core = { version = "0.6", features = ["getrandom"] }
serde_json = "1"
uuid = { version = "1", features = ["v4"] }
axum = "0.7"
deadpool-redis = "0.15"
redis = { version = "0.25", default-features = false, features = ["tokio-comp"] }
reqwest = { version = "0.12", default-features = false }
serde = { version = "1", features = ["derive"] }
tokio = { version = "1", features = ["full"] }
toml = "0.8"
tracing = "0.1"
tracing-subscriber = { version = "0.3", features = ["env-filter"] }
