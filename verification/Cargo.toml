[package]
name = "gc"
version = "0.1.0"
edition = "2021"
publish = false

[dependencies]
dirs = "*"
clap = "4"
prettytable-rs = "0.10"
serde = { version = "1", features = ["derive"] }
serde_json = "1"
strum = "*"
strum_macros = "*"
lazy_static = "1"
