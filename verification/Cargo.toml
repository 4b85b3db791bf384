[package]
name = "wikisearch"
version = "0.1.0"
edition = "2021"
publish = false

[dependencies]
porter-stemmer = "*"
unicode-segmentation = "*"
serde = "*"
serde_derive = "*"
serde_json = "*"
reqwest = { version = "*", default-features = false }
tokio = { version = "*", features = ["rt-multi-thread", "macros"] }
futures = "*"
log = "*"
env_logger = "*"
