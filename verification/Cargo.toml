[package]
name = "linklist"
version = "0.1.0"
edition = "2021"
publish = false

[dependencies]
url = "2"
clap = { version = "4", features = ["derive"] }
colored = "2"
reqwest = { version = "0.11", features = ["blocking"] }
rpassword = "7"
secrecy = "0.8"
