[package]
name = "sip_front"
version = "0.1.0"
edition = "2021"
publish = false

[dependencies]
colored = "*"
memmap2 = "*"
