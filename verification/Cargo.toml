[package]
name = "hexerator"
version = "0.1.0"
edition = "2021"
publish = false

[dependencies]
anyhow = "=1.0.104"
libloading = "=0.8.9"
