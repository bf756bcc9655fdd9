[package]
name = "http-queue-lite"
version = "0.1.0"
edition = "2021"
publish = false

[dependencies]
docopt = "0.7"
rustc-serialize = "0.3"
threadpool = "1"
