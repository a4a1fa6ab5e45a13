[package]
name = "quickpython"
version = "0.1.0"
edition = "2021"
publish = false

[dependencies]
rustpython-parser = "=0.4.0"
regex = "=1.13.1"
serde_json = "=1.0.154"
serde = { version = "=1.0.229", features = ["derive"] }
clap = { version = "=4.6.7", features = ["derive"] }
tokio = { version = "=1.54.1", features = ["rt", "time"] }
reqwest = { version = "0.12", features = ["blocking", "json"] }
