[package]
name = "gh_notify"
version = "0.1.0"
edition = "2021"
publish = false

[dependencies]
notify-rust = "*"
log = "*"
env_logger = "*"
