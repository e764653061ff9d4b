[package]
name = "sheetpack"
version = "0.1.0"
edition = "2021"
publish = false

[dependencies]
zip = "0.6"
