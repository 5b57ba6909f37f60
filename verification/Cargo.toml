[package]
name = "lingq_anki"
version = "0.1.0"
edition = "2021"
publish = false

[dependencies]
anyhow = "*"
clap = { version = "*", features = ["derive", "env"] }
reqwest = { version = "*", default-features = false, features = ["blocking", "json", "rustls-tls"] }
serde = { version = "*", features = ["derive"] }
serde_json = "*"
serde_repr = "*"
