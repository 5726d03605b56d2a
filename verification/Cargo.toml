[package]
name = "statechart"
version = "0.1.0"
edition = "2021"

[dependencies]
ron = "*"
serde = { version = "1", features = ["derive"] }
xml-rs = "*"
