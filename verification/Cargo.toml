[package]
name = "cutsvg"
version = "0.1.0"
edition = "2021"
publish = false

[dependencies]
ares = "*"
hyper = "0.10"
iron = "0.6"
notify = "2"
router = "0.6"
typemap = "0.3"
websocket = { version = "0.20", default-features = false, features = ["sync"] }
