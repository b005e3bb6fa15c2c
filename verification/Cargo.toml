[package]
name = "filecanopy"
version = "0.1.0"
edition = "2021"
publish = false

[dependencies]
blake3 = "=1.8.7"
xxhash-rust = { version = "=0.8.19", features = ["xxh3"] }
serde = { version = "=1.0.229", features = ["derive"] }
serde_json = "=1.0.154"
clap = { version = "=4.6.7", features = ["derive", "env"] }
chrono = { version = "=0.4.45", features = ["serde"] }
humansize = "=2.1.3"
dirs = "=6.0.0"
tokio = { version = "=1.54.1", features = ["rt-multi-thread"] }
iced = { version = "=0.14.0", default-features = false, features = ["canvas", "tokio", "tiny-skia", "x11"] }
rfd = { version = "0.15", default-features = false, features = ["xdg-portal", "tokio"] }
