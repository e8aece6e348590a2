[package]
name = "four_fours"
version = "0.1.0"
edition = "2021"
publish = false

[dependencies]
smallvec = "1"
