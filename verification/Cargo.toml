[package]
name = "runtime"
version = "0.1.0"
edition = "2021"
publish = false

[dependencies]
sysinfo = "=0.30.13"
burn = { version = "=0.20.1", default-features = false }
