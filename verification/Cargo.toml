[package]
name = "pwsp"
version = "0.1.0"
edition = "2021"
publish = false

[dependencies]
tokio = { version = "=1.53.2", features = ["rt-multi-thread", "macros", "net", "time", "sync", "io-util"] }
rodio = "=0.22.2"
dirs = "=7.0.0"
pipewire = "=0.10.1"
serde = { version = "*", features = ["derive"] }
serde_json = "=1.0.151"
