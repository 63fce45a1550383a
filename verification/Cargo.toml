[package]
name = "voice_capture"
version = "0.1.0"
edition = "2021"
publish = false

[dependencies]
regex = "1"
rubato = "0.14"
cpal = "0.15"
serde_json = "1"
reqwest = { version = "0.11", default-features = false, features = ["multipart", "json"] }
