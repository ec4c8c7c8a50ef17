[package]
name = "forth3"
version = "0.1.0"
edition = "2021"
publish = false

[dependencies]
hash32 = "0.3"
