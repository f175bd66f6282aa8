[package]
name = "npearl"
version = "0.1.0"
edition = "2021"
publish = false

[dependencies]
thermite = "*"
thermite-special = "*"
