[package]
name = "mailbox_dispatch"
version = "0.1.0"
edition = "2021"
publish = false

[dependencies]
threadpool = "*"
regex = "*"
num_cpus = "*"
nix = { version = "*", features = ["signal"] }
