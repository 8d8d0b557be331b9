[package]
name = "activate"
version = "0.1.0"
edition = "2021"
publish = false

[dependencies]
serde_json = "*"
toml = "*"
serde = { version = "*", features = ["derive"] }
clap = { version = "*", features = ["derive"] }
crossbeam-channel = "*"
ignore = "*"
num_cpus = "*"
