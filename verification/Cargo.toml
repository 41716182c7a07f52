[package]
name = "kakehashi"
version = "0.1.0"
edition = "2021"
publish = false

[dependencies]
log = "0.4"
tower-lsp-server = "*"
url = "2"
