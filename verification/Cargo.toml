[package]
name = "monster"
version = "0.1.0"
edition = "2021"
publish = false

[dependencies]
anyhow = "1"
bytesize = "1"
clap = "2"
const_format = "0.2"
lazy_static = "1"
strum = { version = "0.24", features = ["derive"] }
