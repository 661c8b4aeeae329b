[package]
name = "accord"
version = "0.1.0"
edition = "2021"
publish = false

[dependencies]
datafusion = { version = "*", default-features = false }
fnv = "=1.0.7"
siphasher = "=1.0.4"
