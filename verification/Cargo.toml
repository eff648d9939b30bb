[package]
name = "fanout"
version = "0.1.0"
edition = "2021"
publish = false

[dependencies]
serde_json = "*"
actix = "*"
actix-web = "*"
actix-web-actors = "*"
futures = "*"
mongodb = "*"
tokio = { version = "*", features = ["full"] }
