[package]
name = "gc9a01a"
version = "0.1.0"
edition = "2021"
publish = false

[dependencies]
embedded-graphics = "0.7"
embedded-hal = "0.2"
