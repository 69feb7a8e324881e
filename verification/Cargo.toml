[package]
name = "trading_maid"
version = "0.1.0"
edition = "2021"
publish = false

[dependencies]
rust_decimal = { version = "=1.43.0", features = ["maths"] }
chrono = "=0.4.45"
indexmap = "=2.14.2"
serde = { version = "=1.0.229", features = ["derive"] }
serde_json = "=1.0.154"
serde_with = "3"
csv = "=1.4.0"
bincode = "=1.3.3"
anyhow = "=1.0.104"
async-trait = "0.1"
tokio = { version = "=1.54.1", features = ["rt", "rt-multi-thread", "macros", "sync", "fs", "time", "io-util"] }
dirs = "5"
webbrowser = "1"
zip = { version = "=2.6.1", default-features = false, features = ["deflate"] }
warp = { version = "=0.3.7", default-features = false }
reqwest = { version = "=0.12.28", default-features = false, features = ["rustls-tls"] }
