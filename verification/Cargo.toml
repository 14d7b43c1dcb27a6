[package]
name = "ani_cli_rus"
version = "0.1.0"
edition = "2021"
publish = false

[dependencies]
scraper = "*"
serde_json = "*"
urlencoding = "*"
