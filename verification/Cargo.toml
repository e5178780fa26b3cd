[package]
name = "intersections"
version = "0.1.0"
edition = "2021"
publish = false

[dependencies]
rand = "0.7"
Inflector = "0.11"
rust-argon2 = "0.8"
uuid = { version = "0.8", features = ["v4"] }
chrono = "0.4"
serde = { version = "1", features = ["derive"] }
serde_json = "1"
regex = "1"
