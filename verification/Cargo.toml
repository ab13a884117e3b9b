[package]
name = "lwsk"
version = "0.1.0"
edition = "2021"
publish = false

[dependencies]
wasmi = "*"
clap = { version = "*", features = ["derive"] }
serde = { version = "*", features = ["derive"] }
toml = "*"
log = "*"
pretty_env_logger = "*"
thiserror = "*"

[dev-dependencies]
wat = "*"
