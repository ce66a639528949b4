[package]
name = "beview"
version = "0.1.0"
edition = "2021"
publish = false

[dependencies]
serde = { version = "=1.0.229", features = ["derive"] }
serde_json = "=1.0.154"
chrono = { version = "=0.4.45", features = ["serde"] }
hex = "=0.4.3"
rand = "=0.8.8"
tokio = { version = "=1.54.1", features = ["rt-multi-thread", "macros", "sync", "time"] }
tracing = "=0.1.44"
futures-util = "=0.3.34"
async-stream = "=0.3.6"
fsrs = "=6.6.2"
