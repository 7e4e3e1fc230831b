[package]
name = "overlay_server"
version = "0.1.0"
edition = "2021"
publish = false

[dependencies]
bitvec = "=1.0.1"
crossbeam-channel = "0.5"
log = "0.4"
postcard = { version = "1", features = ["alloc"] }
