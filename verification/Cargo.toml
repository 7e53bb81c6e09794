[package]
name = "framejoin"
version = "0.1.0"
edition = "2021"

[dependencies]
crossbeam = "*"
