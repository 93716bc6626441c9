[package]
name = "statline"
version = "0.1.0"
edition = "2021"
publish = false

[dependencies]
anyhow = "*"
either = "*"
io-uring = "*"
libc = "*"
openat = "*"
rustix = { version = "*", features = ["time"] }
