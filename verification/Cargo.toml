[package]
name = "jinx"
version = "0.1.0"
edition = "2021"
publish = false

[dependencies]
anyhow = "1"
chrono = "0.4"
iridescent = "*"
pico-args = "0.5"
