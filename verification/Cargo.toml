[package]
name = "linera"
version = "0.1.0"
edition = "2021"
publish = false

[dependencies]
lru = "=0.12.5"
futures = "=0.3.34"
tracing = "0.1"
