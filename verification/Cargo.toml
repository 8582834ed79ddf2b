[package]
name = "moon_bundler"
version = "0.1.0"
edition = "2021"
publish = false

[dependencies]
full_moon = "0.19.0"
anyhow = "1"
clap = { version = "4", features = ["derive"] }
stylua = "*"
darklua = "*"
