[package]
name = "rinit"
version = "0.1.0"
edition = "2021"
publish = false

[dependencies]
sha2 = "0.10"
flate2 = "1"
clap = { version = "4", features = ["derive"] }
