[package]
name = "kline_store"
version = "0.1.0"
edition = "2021"
publish = false

[dependencies]
chrono = "*"
anyhow = "*"
log = "*"
env_logger = "*"
rayon = "*"
reqwest = { version = "*", default-features = false, features = ["blocking", "json"] }
serde = { version = "*", features = ["derive"] }
serde_json = "*"
toml = "*"
zip = { version = "*", default-features = false, features = ["deflate"] }
polars = { version = "*", default-features = false, features = ["parquet", "temporal"] }
