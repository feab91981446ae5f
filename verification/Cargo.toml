[package]
name = "state_cache"
version = "0.1.0"
edition = "2021"
publish = false

[dependencies]
futures = "0.3"
ruma = { version = "*", features = ["appservice-api-s", "events"] }
serde_json = { version = "1.0", features = ["raw_value"] }
