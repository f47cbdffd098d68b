[package]
name = "ctx"
version = "0.1.0"
edition = "2021"
publish = false

[dependencies]
clap = "*"
directories = "*"
open = "*"

[dev-dependencies]
serde_json = "*"
