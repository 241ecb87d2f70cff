[package]
name = "blst_from_scratch"
version = "0.1.0"
edition = "2021"
publish = false

[dependencies]
blst = { version = "=0.3.17", features = ["no-threads"] }
rand = "=0.8.8"
