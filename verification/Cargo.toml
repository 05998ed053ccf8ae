[package]
name = "pacman_rs"
version = "0.1.0"
edition = "2021"
publish = false

[dependencies]
flate2 = "1"
structopt = "0.3"
ansi_term = "0.12"
