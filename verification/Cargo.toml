[package]
name = "twig"
version = "0.1.0"
edition = "2021"
publish = false

[dependencies]
owo-colors = "=4.4.0"
console = "=0.15.11"
anyhow = "=1.0.104"
serde = { version = "=1.0.229", features = ["derive"] }
toml = "=0.8.23"
clap = { version = "=4.6.7", features = ["derive"] }
uuid = { version = "=1.29.0", features = ["v4"] }
chrono = "=0.4.45"
serde_json = "=1.0.154"
regex = "1"
