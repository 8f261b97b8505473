[package]
name = "tileboard"
version = "0.1.0"
edition = "2021"
publish = false

[dependencies]
ril = { version = "*", features = ["png", "jpeg"] }
url = "2"
image = { version = "*", default-features = false, features = ["png", "jpeg"] }
reqwest = { version = "0.12", default-features = false, features = ["blocking", "rustls-tls"] }
serde = { version = "1", features = ["derive"] }
serde_yaml = "0.9"
anyhow = "1"
thiserror = "1"
