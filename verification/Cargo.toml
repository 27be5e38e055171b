[package]
name = "nub_script"
version = "0.1.0"
edition = "2021"
publish = false

[dependencies]
piccolo = "0.3"
gc-arena = "0.5"
anyhow = "1"
thiserror = "1"
log = "0.4"
futures-util = { version = "0.3", default-features = false, features = ["std"] }
tokio = { version = "1", features = ["rt-multi-thread", "macros"] }
env_logger = { version = "0.11", default-features = false }
