[package]
name = "cli_kv"
version = "0.1.0"
edition = "2021"

[dependencies]
serde_json = "1.0"
terminal-clipboard = "*"
