[package]
name = "eval"
version = "0.1.0"
edition = "2021"
publish = false

[dependencies]
rand = "*"
clap = { version = "*", features = ["derive"] }
csv = "*"
rayon = "*"
serde = { version = "*", features = ["derive"] }
serde_yaml = "*"
tabled = "*"
