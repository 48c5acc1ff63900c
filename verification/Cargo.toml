[package]
name = "kaboom"
version = "0.1.0"
edition = "2021"
publish = false

[dependencies]
anyhow = "1"
argh = "0.1"
atom_syndication = "0.12"
chrono = "0.4"
env_logger = "0.10"
log = "0.4"
