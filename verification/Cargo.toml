[package]
name = "trouble_host"
version = "0.1.0"
edition = "2021"
publish = false

[dependencies]
bt-hci = "*"
heapless = "0.8"
embassy-time = "*"
embassy-sync = "*"
