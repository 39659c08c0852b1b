[package]
name = "leg"
version = "0.1.0"
edition = "2021"
publish = false

[dependencies]
base64 = "0.22"
httpdate = "1"
similar = "2"
serde = { version = "1", features = ["derive"] }
serde_json = "1"
ureq = "3"
libc = "0.2"
