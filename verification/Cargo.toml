[package]
name = "rfc3339_fast"
version = "0.2.0"
edition = "2021"
publish = false

[dependencies]
bytes = "1"
chrono = { version = "0.4", default-features = false, features = ["std", "clock"] }
postgres-types = "0.2"
serde_core = "1"
