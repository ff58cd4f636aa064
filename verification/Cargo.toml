[package]
name = "ultra_edr"
version = "0.1.0"
edition = "2021"
publish = false

[dependencies]
aes-gcm = "0.10"
chrono = "0.4"
hex = "0.4"
libc = "0.2"
log = "0.4"
rand = "0.8"
sha2 = "0.10"
thiserror = "1"
tokio = { version = "1", features = ["rt-multi-thread", "time", "macros"] }
