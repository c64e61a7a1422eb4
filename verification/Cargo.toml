[package]
name = "terra"
version = "0.1.0"
edition = "2021"
publish = false

[dependencies]
anyhow = "1"
async-ctrlc = "1"
comrak = { version = "*", default-features = false }
env_logger = { version = "*", default-features = false }
futures = "0.3"
log = "0.4"
ring = "*"
serde = { version = "1", features = ["derive"] }
serde_json = "1"
serde_yaml = "0.9"
sqlx = { version = "0.8", default-features = false, features = ["mysql", "runtime-tokio"] }
thiserror = "1"
tokio = { version = "1", features = ["rt-multi-thread", "macros"] }
warp = { version = "0.3", default-features = false }
