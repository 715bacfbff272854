[package]
name = "psqlpack"
version = "0.1.0"
edition = "2021"
publish = false

[dependencies]
postgres = "0.19"
serde = { version = "1", features = ["derive"] }
serde_json = "1"
walkdir = "2"
zip = { version = "0.6", default-features = false, features = ["deflate"] }
