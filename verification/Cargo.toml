[package]
name = "rdb"
version = "0.1.0"
edition = "2021"
publish = false

[dependencies]
chrono = { version = "*", default-features = false, features = ["std"] }
serde = { version = "*", features = ["derive"] }
serde_json = "*"
simd-json = "*"
toml = "*"
uuid = { version = "*", features = ["v4"] }
