[package]
name = "mc_protocol"
version = "0.1.0"
edition = "2021"
publish = false

[dependencies]
aes = "*"
sha1 = "*"
num-bigint = "*"
rsa = "*"
rand = "0.8"
serde = { version = "*", features = ["derive"] }
serde_json = "*"
tokio = { version = "*", features = ["net", "io-util", "rt"] }
