[package]
name = "lang"
version = "0.1.0"
edition = "2021"
publish = false

[dependencies]
anyhow = "=1.0.104"
lru = "=0.19.0"
nu-ansi-term = "=0.50.3"
reedline = "=0.52.1"
thiserror = "=2.0.21"
