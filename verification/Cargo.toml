[package]
name = "abe_bench"
version = "0.1.0"
edition = "2021"
publish = false

[dependencies]
csv = "1"
rabe = "*"
bincode = "1"
rand = "0.8"
