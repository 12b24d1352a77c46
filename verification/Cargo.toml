[package]
name = "ap2024_unitn_cppenjoyers_drone"
version = "0.1.0"
edition = "2021"
publish = false

[dependencies]
crossbeam-channel = "0.5"
log = "0.4"
pretty_env_logger = "0.5"
rand = "0.8"
