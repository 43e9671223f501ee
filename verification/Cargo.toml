[package]
name = "voicecore"
version = "0.1.0"
edition = "2021"
publish = false

[dependencies]
base64 = "0.22"
image = { version = "0.25", default-features = false, features = ["jpeg"] }
nnnoiseless = "0.5"
opus = "0.3"
rand = "0.8"
uuid = { version = "1", features = ["v4"] }
