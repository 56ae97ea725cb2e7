[package]
name = "mcfuse"
version = "0.1.0"
edition = "2021"
publish = false

[dependencies]
fuser = "*"
libc = "*"
ctrlc = "*"
parking_lot = "*"
log = "*"
env_logger = "*"
