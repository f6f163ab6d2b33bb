[package]
name = "sharded_server"
version = "0.1.0"
edition = "2021"
publish = false

[dependencies]
env_logger = "0.11"
futures-lite = "2"
glommio = "0.9"
log = "0.4"
lru = "0.12"
num_cpus = "1"
rand = "0.8"
