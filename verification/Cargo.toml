[package]
name = "evmcore"
version = "0.1.0"
edition = "2021"
publish = false

[dependencies]
regex = "1"
hex = "0.4"
serde = { version = "1", features = ["derive"] }
clap = { version = "4", features = ["derive"] }
clap-verbosity-flag = "*"
primitive-types = "*"
