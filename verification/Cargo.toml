[package]
name = "handy_text"
version = "0.1.0"
edition = "2021"
publish = false

[dependencies]
natural = "*"
regex = "1"
strsim = "0.11"
