[package]
name = "custom_alias"
version = "0.1.0"
edition = "2021"
publish = false

[dependencies]
regex = "1"
dirs = "*"
chrono = "0.4"
thiserror = "2"
serde = { version = "1", features = ["derive"] }
