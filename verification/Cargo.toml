[package]
name = "harbor_kv"
version = "0.1.0"
edition = "2021"
publish = false

[dependencies]
sqlx = { version = "*", default-features = false, features = ["sqlite", "runtime-tokio"] }
