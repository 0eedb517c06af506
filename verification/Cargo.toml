[package]
name = "orca"
version = "0.1.0"
edition = "2021"
publish = false

[dependencies]
semver = { version = "=1.0.28", features = ["serde"] }
clap = { version = "=4.6.7", features = ["derive"] }
serde = { version = "=1.0.229", features = ["derive"] }
indoc = "=2.0.7"
thiserror = "=2.0.21"
petgraph = "=0.8.3"
