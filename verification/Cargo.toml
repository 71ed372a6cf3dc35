[package]
name = "harvester"
version = "0.1.0"
edition = "2021"
publish = false

[dependencies]
anyhow = "*"
async-channel = "*"
csv = "*"
dotenvy = "*"
futures-util = "*"
indicatif = "*"
reqwest = { version = "*", default-features = false, features = ["rustls-tls"] }
serde = { version = "*", features = ["derive"] }
sqlx = { version = "*", features = ["postgres", "runtime-tokio"] }
time = { version = "*", features = ["serde-human-readable", "macros", "formatting", "parsing"] }
tokio = { version = "*", features = ["rt-multi-thread", "macros", "time"] }
tokio-retry = "*"
tracing = "*"
tracing-subscriber = "*"
