[package]
name = "hamster_wheel"
version = "0.2.0"
edition = "2021"
publish = false

[dependencies]
csv = "*"
clap = "*"
walkdir = "*"
reqwest = { version = "*", default-features = false, features = ["blocking", "rustls-tls"] }
