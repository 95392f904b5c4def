[package]
name = "tbunread"
version = "0.1.0"
edition = "2021"
publish = false

[dependencies]
anyhow = "1"
argh = "0.1"
dirs = "5"
env_logger = "0.10"
glob = "0.3"
human-panic = "1"
lazy_static = "1"
log = "0.4"
notify = "4"
regex = "1"
rust-ini = "0.19"
sysinfo = "0.29"
