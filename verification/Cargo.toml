[package]
name = "wasi_selector"
version = "0.1.0"
edition = "2021"
publish = false

[dependencies]
libc = "=0.2.191"
wasi = "=0.11.1"
wamr_wasi_socket = { version = "=0.1.1", features = ["wasi_poll"] }
wasmedge_wasi_socket = { version = "=0.5.5", features = ["wasi_poll"] }
