[package]
name = "serde_generate"
version = "0.1.0"
edition = "2021"
publish = false

[dependencies]
textwrap = "*"
serde-reflection = "*"
