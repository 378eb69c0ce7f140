[package]
name = "rust_covfix"
version = "0.1.0"
edition = "2021"
publish = false

[dependencies]
argparse = "*"
quick-xml = "*"
