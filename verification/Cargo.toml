[package]
name = "hub_diff"
version = "0.1.0"
edition = "2021"
publish = false

[dependencies]
chrono = "0.4"
clap = { version = "4", features = ["derive"] }
eyre = "0.6"
serde_json = "1"
