[package]
name = "sipstream"
version = "0.1.0"
edition = "2021"
publish = false

[dependencies]
siphasher = "*"
num_cpus = "*"
crossbeam-channel = "*"
crossbeam-utils = "*"
