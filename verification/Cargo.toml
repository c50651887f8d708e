[package]
name = "string_inspector"
version = "0.1.0"
edition = "2021"
publish = false

[dependencies]
encoding = "0.2"
clap = "2"
colored = "2"
terminal_size = "0.3"
