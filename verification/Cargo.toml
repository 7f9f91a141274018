[package]
name = "rust_o_mapper"
version = "0.1.0"
edition = "2021"
publish = false

[dependencies]
quick-xml = "0.37"
prettytable-rs = "0.10"
serde = { version = "1", features = ["derive"] }
serde_json = "1"
tungstenite = "*"
svg = "*"
