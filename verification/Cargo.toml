[package]
name = "binsplit"
version = "0.1.0"
edition = "2021"
publish = false

[dependencies]
capstone = "*"
hex = "*"
sha1 = "*"
serde = { version = "1", features = ["derive"] }
serde_yaml = "*"
