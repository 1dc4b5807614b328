[package]
name = "wordbook"
version = "0.1.0"
edition = "2021"
publish = false

[dependencies]
difflib = "*"
serde_json = "1"
