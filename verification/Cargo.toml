[package]
name = "runner"
version = "0.1.0"
edition = "2021"
publish = false

[dependencies]
yaml-rust = "0.4.5"
ctrlc = "3"
