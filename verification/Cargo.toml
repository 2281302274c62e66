[package]
name = "c2pa_lib"
version = "0.1.0"
edition = "2021"
publish = false

[dependencies]
anyhow = "*"
c2pa = { version = "=0.90.22", features = ["file_io"] }
chrono = { version = "*", features = ["serde"] }
futures = "*"
hex = "*"
mp4 = "=0.14.0"
once_cell = "*"
serde = { version = "*", features = ["derive"] }
serde_json = "*"
sha2 = "=0.10.9"
tokio = { version = "*", features = ["rt-multi-thread", "sync", "time", "macros", "fs"] }
tokio-util = "*"
