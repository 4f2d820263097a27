[package]
name = "jsfx_lint"
version = "0.1.0"
edition = "2021"
publish = false

[dependencies]
regex = "1"
uuid = { version = "1", features = ["v4"] }
walkdir = "2"
colored = "*"
