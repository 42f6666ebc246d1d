[package]
name = "mock_peer"
version = "0.1.0"
edition = "2021"
publish = false

[dependencies]
aes = "=0.8.4"
aes-gcm = "=0.10.3"
ctr = "=0.9.2"
hkdf = "=0.12.4"
k256 = "=0.13.4"
rand = "=0.8.8"
sha2 = "=0.10.9"
zeroize = "=1.9.1"
