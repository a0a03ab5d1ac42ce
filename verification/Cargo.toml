[package]
name = "connect_padding"
version = "0.1.0"
edition = "2021"
publish = false

[dependencies]
async-trait = "0.1"
bytes = "1"
http = "0.2"
rand = "0.8"
