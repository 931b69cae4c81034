[package]
name = "yarn_codegen"
version = "0.1.0"
edition = "2021"
publish = false

[dependencies]
anyhow = "1"
genco = "*"
syn = { version = "2", features = ["full"] }
trim-in-place = "*"
