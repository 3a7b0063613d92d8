[package]
name = "openobserve"
version = "0.1.0"
edition = "2021"
publish = false

[dependencies]
ahash = "0.8"
chrono = { version = "0.4", default-features = false, features = ["clock", "std"] }
serde_json = "1"
snap = "1"
promql-parser = "0.1"
actix-web = { version = "4", default-features = false }
actix-web-prometheus = { version = "0.1", default-features = false }
prometheus = { version = "0.13", default-features = false }
anyhow = "1"
async-trait = "0.1"
aws-sdk-dynamodb = { version = "1", default-features = false }
bytes = "1"
futures = "0.3"
log = "0.4"
object_store = { version = "0.6", features = ["aws", "azure", "gcp"] }
once_cell = "1"
prost = "0.11"
serde = { version = "1", features = ["derive"] }
sqlx = { version = "0.7", default-features = false, features = ["macros"] }
tokio = { version = "1", features = ["sync", "time", "io-util"] }
tracing = "0.1"
