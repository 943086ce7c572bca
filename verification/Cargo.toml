[package]
name = "risp"
version = "0.1.0"
edition = "2021"
publish = false

[dependencies]
rustc_apfloat = "0.2"
anyhow = "1"
clap = "3"
env_logger = "0.9"
rustyline = "9"
rustyline-derive = "0.6"
thiserror = "1"
