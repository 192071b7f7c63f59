[package]
name = "treesnap"
version = "0.1.0"
edition = "2021"
publish = false

[dependencies]
chardetng = "0.1"
encoding_rs = "0.8"
ignore = "0.4"
