[package]
name = "asfml"
version = "0.1.0"
edition = "2021"
publish = false

[dependencies]
chrono = { version = "0.4", default-features = false, features = ["std"] }
clap = { version = "4", features = ["derive"] }
comfy-table = { version = "7", default-features = false }
keyring = { version = "3", features = ["linux-native"] }
reqwest = { version = "0.12", default-features = false, features = ["blocking", "rustls-tls"] }
rpassword = "7"
serde = { version = "1", features = ["derive"] }
serde_json = "1"
url = "2"
