[package]
name = "tracer"
version = "0.1.0"
edition = "2021"
publish = false

[dependencies]
argon2 = "0.5"
base64 = "0.22"
chacha20poly1305 = "0.10"
chrono = "0.4"
rand = "0.8"
sha2 = "0.10"
uuid = { version = "1", features = ["v4"] }
serde = { version = "1", features = ["derive"] }
serde_json = "1"
rusqlite = { version = "*", features = ["bundled"] }
zstd = "0.13"
tempfile = "3"
tokio = { version = "1", features = ["sync", "rt", "macros", "time"] }
reqwest = { version = "0.12", default-features = false }
image = { version = "0.25", default-features = false, features = ["png", "jpeg"] }
