[package]
name = "unchecked_bytes"
version = "0.1.0"
edition = "2021"

[dependencies]
unchecked-index = "*"
