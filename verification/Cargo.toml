[package]
name = "cfdns"
version = "0.1.0"
edition = "2021"
publish = false

[dependencies]
anyhow = "*"
clap = { version = "4", features = ["derive"] }
dirs = "*"
env_logger = "*"
ifcfg = "*"
log = "*"
reqwest = { version = "*", default-features = false, features = ["blocking", "json", "query"] }
serde = { version = "*", features = ["derive"] }
thiserror = "*"
toml = "*"
