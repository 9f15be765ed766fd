[package]
name = "vacuum"
version = "0.1.0"
edition = "2021"
publish = false

[dependencies]
dirs = "=2.0.2"
glob = "=0.3.4"

[dev-dependencies]
nom = { version = "=5.1.3", default-features = false, features = ["std"] }
