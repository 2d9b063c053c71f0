[package]
name = "witnesscalc_adapter"
version = "0.1.0"
edition = "2021"
publish = false

[dependencies]
num-bigint = "0.4"
num-traits = "0.2"
serde_json = "1"
anyhow = "1"
libc = "0.2"
paste = "1"
