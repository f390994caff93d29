[package]
name = "sio"
version = "0.1.0"
edition = "2021"
publish = false

[dependencies]
async-channel = "2.3"
hashbrown = "0.14"
smol = "2.0"
