[package]
name = "krez"
version = "0.1.0"
edition = "2021"
publish = false

[dependencies]
qbe = "*"
colored = "*"
clap = { version = "4", features = ["derive"] }
strum = { version = "*", features = ["derive"] }
