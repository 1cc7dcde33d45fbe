[package]
name = "linux_object"
version = "0.1.0"
edition = "2021"
publish = false

[dependencies]
hashbrown = "*"
log = "*"
spin = "*"
fatfs = "*"
bitflags = "*"
downcast-rs = "*"
async-trait = "*"
lazy_static = "*"
delegate = "*"
