[package]
name = "musicalix"
version = "0.1.0"
edition = "2021"
publish = false

[dependencies]
libwing = "*"
itertools = "*"
serde = { version = "1", features = ["derive"] }
serde_json = "1"
tokio = { version = "1", default-features = false, features = ["sync", "rt", "time"] }
