[package]
name = "textutil"
version = "0.1.0"
edition = "2021"
publish = false

[dependencies]
ansi_term = "*"
anyhow = "*"
chrono = "*"
clap = "*"
csv = "*"
rand = "*"
regex = "*"
