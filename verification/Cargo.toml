[package]
name = "road47"
version = "0.1.0"
edition = "2021"
publish = false

[dependencies]
twox-hash = "*"
rand = "*"
tokio = { version = "*", features = ["full"] }
serde = { version = "*", features = ["derive"] }
toml = "*"
reqwest = { version = "*", default-features = false, features = ["json"] }
mobc = "*"
async-trait = "*"
futures = "*"
log = "*"
env_logger = "*"
tracing = "*"
