[package]
name = "roslyn_ls"
version = "0.1.0"
edition = "2021"
publish = false

[dependencies]
rand = "*"
url = "*"
ignore = "*"
clap = { version = "*", features = ["derive"] }
