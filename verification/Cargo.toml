[package]
name = "gcrecomp"
version = "0.1.0"
edition = "2021"
publish = false

[dependencies]
zstd = "*"
sha2 = "*"
serde = { version = "1", features = ["derive"] }
serde_json = "1"
anyhow = "1"
log = "0.4"
env_logger = "*"
clap = { version = "4", features = ["derive"] }
indicatif = "*"
rusb = "*"
