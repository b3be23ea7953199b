[package]
name = "minnow"
version = "0.1.0"
edition = "2021"
publish = false

[dependencies]
hyper = { version = "0.14", features = ["server", "http1", "tcp"] }
http = "0.2"
futures-util = "0.3"
