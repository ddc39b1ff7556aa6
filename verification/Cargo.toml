[package]
name = "ring_cycles"
version = "0.1.0"
edition = "2021"
publish = false

[dependencies]
bevy = { version = "0.14", default-features = false }
num-bigint = "0.4"
rand = "0.8"
