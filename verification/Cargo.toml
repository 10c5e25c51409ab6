[package]
name = "chess_patterns"
version = "0.1.0"
edition = "2021"
publish = false

[dependencies]
chess = "*"
serde = { version = "*", features = ["derive"] }
serde_json = "*"
reqwest = { version = "*", default-features = false, features = ["blocking", "rustls-tls"] }
