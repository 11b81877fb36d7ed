[package]
name = "local_video_stream"
version = "0.1.0"
edition = "2021"
publish = false

[dependencies]
regex = "1"
actix-web = "4"
askama = "*"
serde = { version = "1", features = ["derive"] }
tokio = { version = "1", features = ["rt-multi-thread", "macros", "process", "io-util", "sync"] }
futures-core = "0.3"
local-ip-address = "*"
