[package]
name = "ssm2"
version = "0.1.0"
edition = "2021"
publish = false

[dependencies]
itertools = "*"
json = "*"
open = "*"
serialport = { version = "*", default-features = false }
simple-websockets = "*"
threadpool = "*"
