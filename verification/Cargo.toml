[package]
name = "u64stream"
version = "0.1.0"
edition = "2021"
publish = false

[dependencies]
clap = { version = "*", features = ["derive"] }
cpal = "*"
minifb = "*"
tokio = { version = "*", features = ["rt-multi-thread", "net", "sync", "macros", "time"] }
tokio-util = "*"
tracing = "*"
tracing-subscriber = { version = "*", features = ["env-filter"] }
