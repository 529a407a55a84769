[package]
name = "dupfind"
version = "0.1.0"
edition = "2021"
publish = false

[dependencies]
md5 = "*"
regex = "*"
indicatif = "*"
clap = { version = "*", features = ["derive"] }
glob = "*"
log = "*"
simple_logger = "*"
rayon = "*"

[dev-dependencies]
serde_json = "*"
