[package]
name = "pnetlink"
version = "0.1.0"
edition = "2021"
publish = false

[dependencies]
byteorder = "1"
bytes = "0.4"
futures = "0.1"
libc = "0.2"
mio = "0.6"
pnet = "*"
tokio-core = "0.1"
tokio-io = "0.1"
