[package]
name = "cala_projector"
version = "0.1.0"
edition = "2021"
publish = false

[dependencies]
async-trait = "0.1"
chrono = { version = "=0.4.45", features = ["serde"] }
derive_builder = "0.20"
es-entity = "=0.11.12"
futures = "0.3"
job = "=0.6.37"
obix = "=0.2.33"
rust_decimal = "=1.43.0"
serde = { version = "1", features = ["derive"] }
serde_json = "=1.0.154"
sqlx = { version = "=0.8.6", features = ["postgres", "runtime-tokio"] }
thiserror = "2"
tokio = { version = "1", features = ["full"] }
tracing = "0.1"
uuid = { version = "=1.29.0", features = ["serde", "v7"] }
