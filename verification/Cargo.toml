[package]
name = "kvstore"
version = "0.1.0"
edition = "2021"
publish = false

[dependencies]
zstd = "*"
actix-web = "*"
log = "*"
env_logger = "*"
