[package]
name = "candump-parse"
version = "0.1.0"
edition = "2021"

[dependencies]
clap = { version = "4", features = ["derive"] }
clap-num = "1"
hex = "0.4"
sscanf = "*"
