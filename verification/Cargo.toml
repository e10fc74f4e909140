[package]
name = "prism"
version = "0.1.0"
edition = "2021"
publish = false

[dependencies]
bincode = "1.3"
serde = { version = "1", features = ["derive"] }
sha2 = "0.10"

[dev-dependencies]
rand = "0.8"
