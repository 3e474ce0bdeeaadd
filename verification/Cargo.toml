[package]
name = "pycom_wrap"
version = "0.1.0"
edition = "2021"
publish = false

[dependencies]
unic-ucd-ident = "0.9"
unic-emoji-char = "0.9"
num-traits = "0.2"
serde = { version = "1", features = ["derive"] }
serde_json = "1"
tracing = "0.1"
tracing-subscriber = "0.3"
