[package]
name = "cadabra"
version = "0.1.0"
edition = "2021"
publish = false

[dependencies]
bitintr = "0.3"
heapless = "0.7"
colored = "2"
lazy_static = "1"
