[package]
name = "dotlink"
version = "0.1.0"
edition = "2021"
publish = false

[dependencies]
shellexpand = "*"
toml = { version = "*", features = ["preserve_order"] }
clap = "2"
ansi_term = "0.12"
