[package]
name = "memarray"
version = "0.1.0"
edition = "2021"
publish = false

[dependencies]
sharedmem = "=0.1.1"
