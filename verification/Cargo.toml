[package]
name = "ferrum_edge"
version = "0.1.0"
edition = "2021"
publish = false

[dependencies]
anyhow = "=1.0.104"
arc-swap = "=1.9.3"
async-trait = "=0.1.92"
bytes = "=1.12.1"
dashmap = "=6.2.1"
futures-util = "=0.3.34"
h3 = "=0.0.8"
h3-quinn = "=0.0.10"
hex = "=0.4.3"
http = "=1.5.0"
quinn = "=0.11.12"
rustls = { version = "=0.23.46", default-features = false, features = ["ring", "std"] }
serde = { version = "=1.0.229", features = ["derive"] }
serde_json = "=1.0.154"
serde_yaml = "=0.9.34"
sha2 = "=0.10.9"
sqlx = { version = "=0.8.6", default-features = false, features = ["any", "postgres", "runtime-tokio"] }
tokio = { version = "=1.54.1", features = ["full"] }
tracing = "=0.1.44"
