[package]
name = "port-knocking-doors"
version = "1.0.0"
edition = "2021"
publish = false

[dependencies]
regex = "1"
clap = { version = "3", features = ["derive"] }
serde = { version = "1", features = ["derive"] }
serde_derive = "1"
toml = "0.5"
dirs = "4"
envmnt = "0.9"
atty = "0.2"
log = "0.4"
env_logger = "0.9"
crossbeam-channel = "0.5"
tokio = { version = "1", features = ["macros", "rt-multi-thread"] }
lazy_static = "1"
mut_static = "5"
