[package]
name = "mdfmt"
version = "0.1.0"
edition = "2021"
publish = false

[dependencies]
comrak = "*"
structopt = "0.3"
