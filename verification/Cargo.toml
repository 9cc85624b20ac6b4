[package]
name = "animood"
version = "0.1.0"
edition = "2021"
publish = false

[dependencies]
rayon = "*"
serde = { version = "*", features = ["derive"] }
serde_json = "*"
bincode = "1"
anyhow = "*"
axum = "*"
tokio = { version = "*", features = ["rt-multi-thread", "macros", "net"] }
tower-http = { version = "*", features = ["cors"] }
reqwest = { version = "*", default-features = false, features = ["json"] }
candle-core = "*"
candle-nn = "*"
candle-transformers = "*"
tokenizers = "*"
