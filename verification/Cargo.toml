[package]
name = "proompt"
version = "0.1.0"
edition = "2021"
publish = false

[dependencies]
chrono = "*"
glob = "*"
clap = { version = "*", features = ["derive"] }
ignore = "*"
