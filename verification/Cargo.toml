[package]
name = "rid_catalog"
version = "0.1.0"
edition = "2021"
publish = false

[dependencies]
actix-web = "4"
actix-governor = "*"
dotenvy = "*"
env_logger = "*"
log = "0.4"
serde = { version = "1", features = ["derive"] }
serde_json = "1"
sqlx = { version = "0.8", features = ["mysql", "runtime-tokio"] }
