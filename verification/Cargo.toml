[package]
name = "elytra_ping"
version = "0.1.0"
edition = "2021"
publish = false

[dependencies]
tokio = { version = "*", features = ["net", "io-util", "time", "macros", "rt"] }
trust-dns-resolver = "*"
serde = { version = "*", features = ["derive"] }
serde_json = "*"
chrono = "*"
rand = "*"
