[package]
name = "umpteenth_anion"
version = "0.1.0"
edition = "2021"
publish = false

[dependencies]
getopts = "*"
rand = "*"
bbt = "*"
