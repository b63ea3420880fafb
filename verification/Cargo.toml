[package]
name = "hab_builder"
version = "0.1.0"
edition = "2021"
publish = false

[dependencies]
protobuf = "1.4"
zmq = "0.8"
rand = "0.3"
time = "0.1"
uuid = { version = "0.5", features = ["v4"] }
fnv = "1.0"
