[package]
name = "bagheera"
version = "0.1.0"
edition = "2021"
publish = false

[dependencies]
num-traits = "0.2"
plain_path = "*"

[dev-dependencies]
rand = "0.8"
