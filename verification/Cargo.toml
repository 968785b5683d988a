[package]
name = "lachesis"
version = "0.4.0"
edition = "2021"
publish = false

[dependencies]
regex = "1"
semver = "1"
ipnet = "2"
http = "1"
colored = "2"
indicatif = "0.17"
tokio = { version = "1", features = ["full"] }
reqwest = { version = "0.12", default-features = false, features = ["rustls-tls"] }
tokio-postgres = "0.7"
rocket = { version = "0.5", features = ["json"] }
clap = { version = "4", features = ["derive"] }
serde = { version = "1", features = ["derive"] }
serde_json = "1"
easy_reader = "0.5"
num_cpus = "1"
unindent = "0.2"
