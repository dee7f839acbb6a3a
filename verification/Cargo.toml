[package]
name = "esp-ds"
version = "0.1.0"
edition = "2021"
publish = false

[dependencies]
aes = "0.8"
bincode = "2"
cbc = "0.1"
clap = { version = "4", features = ["derive"] }
hmac = "0.12"
nb = "1"
num-traits = "0.2"
pem = "3"
rand = "0.8"
rsa = "0.9"
sha2 = "0.10"
