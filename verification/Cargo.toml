[package]
name = "bitcoin_zmq"
version = "0.1.0"
edition = "2021"
publish = false

[dependencies]
futures = { version = "0.3", features = ["compat"] }
futures-zmq = "0.5"
zmq = "0.9"
