[package]
name = "mines6d"
version = "0.1.0"
edition = "2021"
publish = false

[dependencies]
ndarray = "*"
rand = "0.8"
clap = "*"
cursive = "*"
directories = "*"
serde = { version = "1", features = ["derive"] }
serde_json = "1"
