[package]
name = "kaleidoscope"
version = "0.1.0"
edition = "2021"
publish = false

[dependencies]
docopt = "1"
itertools = "*"
serde = "1"
serde_derive = "1"
