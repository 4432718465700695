[package]
name = "yoga_core"
version = "0.1.0"
edition = "2021"
publish = false

[dependencies]
taffy = "=0.9.2"
