[package]
name = "mazgamet"
version = "0.1.0"
edition = "2021"
publish = false

[dependencies]
chrono = "0.4"
log = "0.4"
simplelog = "0.12"
