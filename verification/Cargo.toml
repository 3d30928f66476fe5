[package]
name = "fvm"
version = "0.1.0"
edition = "2021"
publish = false

[dependencies]
ariadne = "*"
clap = { version = "*", features = ["derive"] }
serde = { version = "*", features = ["derive"] }
serde_json = "*"
ron = "*"
