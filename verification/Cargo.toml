[package]
name = "echoip"
version = "0.1.0"
edition = "2021"
publish = false

[dependencies]
lru = "0.16"
maxminddb = "0.27"
arc-swap = "1"
num-bigint = "0.4"
flate2 = "1"
tar = "0.4"
axum = "0.8"
tokio = { version = "1", features = ["full"] }
clap = { version = "4", features = ["derive"] }
serde = { version = "1", features = ["derive"] }
serde_json = "1"
tera = "1"
reqwest = { version = "0.12", default-features = false, features = ["rustls-tls"] }
dns-lookup = "2"
thiserror = "2"
tracing = "0.1"
tracing-subscriber = "0.3"
