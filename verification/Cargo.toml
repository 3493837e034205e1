[package]
name = "exchange_prototype"
version = "0.1.0"
edition = "2021"
publish = false

[dependencies]
rust_decimal = "1"
linked-hash-map = "0.5"
json = "0.12"
log = "0.4"
env_logger = "*"

[dev-dependencies]
rand = "0.8"
rand_chacha = "0.3"
