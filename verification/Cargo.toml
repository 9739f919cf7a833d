[package]
name = "tci"
version = "0.1.0"
edition = "2021"
publish = false

[dependencies]
codespan-reporting = "=0.11.1"
embedded-websocket = "=0.3.2"
serde = { version = "=1.0.229", features = ["derive"] }
