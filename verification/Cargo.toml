[package]
name = "virtio_blk"
version = "0.1.0"
edition = "2021"
publish = false

[dependencies]
bitflags = "1.3"
nb = "1.0"
volatile = "0.3"
