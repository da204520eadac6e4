[package]
name = "reudh"
version = "0.1.0"
edition = "2021"
publish = false

[dependencies]
kuchiki = "0.8"
uuid = { version = "1", features = ["v4"] }
ureq = "2"
num_cpus = "1"
indicatif = "0.17"
