[package]
name = "pwlp"
version = "0.1.0"
edition = "2021"
publish = false

[dependencies]
hmac-sha1 = "*"
rand = "0.8"
rand_chacha = "0.3"
clap = "2"
serde = { version = "1", features = ["derive"] }
toml = "*"
mac_address = "1"
