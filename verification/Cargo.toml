[package]
name = "lambda_ogham"
version = "0.1.0"
edition = "2021"
publish = false

[dependencies]
resvg = "=0.41.0"
svg = "=0.18.0"
