[package]
name = "krapslog"
version = "0.1.0"
edition = "2021"
publish = false

[dependencies]
anyhow = "1"
chrono = { version = "0.4", default-features = false, features = ["std"] }
clap = "4"
file-chunker = "*"
num_cpus = "1"
rayon = "1"
regex = "1"
terminal_size = "*"
