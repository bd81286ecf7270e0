[package]
name = "xsk_rs"
version = "0.1.0"
edition = "2021"
publish = false

[dependencies]
libxdp-sys = "=0.2.4"
