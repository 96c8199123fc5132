[package]
name = "minimq"
version = "0.1.0"
edition = "2021"
publish = false

[dependencies]
varint-rs = "2"
bit_field = "0.10"
heapless = "0.8"
serde = { version = "1", default-features = false, features = ["derive"] }
serde-json-core = "0.6"
embedded-io-async = "0.6"
itoa = "1"
