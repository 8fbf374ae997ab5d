[package]
name = "socha_client_2023"
version = "0.1.0"
edition = "2021"
publish = false

[dependencies]
arrayvec = "0.7"
clap = { version = "4", features = ["derive"] }
log = "0.4"
rand = "0.8"
simplelog = "0.12"
