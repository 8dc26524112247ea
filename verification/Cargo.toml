[package]
name = "blueprint_di"
version = "0.1.0"
edition = "2021"
publish = false

[dependencies]
bimap = "*"
indexmap = "*"
anyhow = "*"
clap = { version = "*", features = ["derive"] }
