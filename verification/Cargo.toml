[package]
name = "automic_core"
version = "0.1.0"
edition = "2021"
publish = false

[dependencies]
hex = "0.4"
memmap2 = "0.9"
rand = "0.9"
