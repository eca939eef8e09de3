[package]
name = "corewars"
version = "0.2.0"
edition = "2021"
publish = false

[dependencies]
rand = "0.8"
anyhow = "1"
env_logger = "0.9"
lazy_static = "1"
log = "0.4"
structopt = "0.3"
thiserror = "1"
