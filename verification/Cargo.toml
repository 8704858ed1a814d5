[package]
name = "aqueue"
version = "0.1.0"
edition = "2021"
publish = false

[dependencies]
anyhow = "*"
async-oneshot = "*"
concurrent-queue = "*"
