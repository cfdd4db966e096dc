[package]
name = "rjtd"
version = "0.1.0"
edition = "2021"
publish = false

[dependencies]
cfb = "0.10"
