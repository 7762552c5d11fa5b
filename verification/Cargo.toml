[package]
name = "waker"
version = "0.1.0"
edition = "2021"
publish = false

[dependencies]
hex = "0.4"
rand = "0.8"
eff-wordlist = "1"
clap = "3"
dirs = "4"
serde = { version = "1", features = ["derive"] }
serde_json = "1"
