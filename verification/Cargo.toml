[package]
name = "semfilter"
version = "0.1.0"
edition = "2021"
publish = false

[dependencies]
ansi_term = "0.12"
anyhow = "1"
chrono = { version = "0.4", default-features = false, features = ["std"] }
clap = "2"
ipnet = "2"
semver = "1"
