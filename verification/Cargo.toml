[package]
name = "bluetooth_broker"
version = "0.1.0"
edition = "2021"
publish = false

[dependencies]
rand = "0.8"
rustc-serialize = "0.3"
tinyfiledialogs = "*"
