[package]
name = "unkai"
version = "0.1.0"
edition = "2021"
publish = false

[dependencies]
backtrace = "*"
dashmap = "*"
once_cell = "*"
