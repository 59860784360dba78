[package]
name = "rapidus"
version = "0.1.0"
edition = "2021"
publish = false

[dependencies]
cilk = "*"
clap = "2"
