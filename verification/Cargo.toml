[package]
name = "antbyte"
version = "0.1.0"
edition = "2021"
publish = false

[dependencies]
anyhow = "1"
clap = { version = "4", features = ["derive"] }
gif = "0.13"
notify = "*"
rand = "0.9"
