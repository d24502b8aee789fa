[package]
name = "sfdl"
version = "0.1.0"
edition = "2021"
publish = false

[dependencies]
calamine = "*"
clap = { version = "4", features = ["derive"] }
csv = "1"
indicatif = "*"
serde = { version = "1", features = ["derive"] }
serde_json = "1"
tempfile = "3"
yaml_serde = "*"
