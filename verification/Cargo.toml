[package]
name = "llm_gateway"
version = "0.1.0"
edition = "2021"
publish = false

[dependencies]
chrono = "0.4"
serde = { version = "1", features = ["derive"] }
serde_json = "1"
futures = "0.3"
reqwest = { version = "*", default-features = false, features = ["stream"] }
actix-web = { version = "4", default-features = false, features = ["macros"] }
redis-async = "*"
