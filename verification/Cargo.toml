[package]
name = "transfer_analytics"
version = "0.1.0"
edition = "2021"
publish = false

[dependencies]
ethers = { version = "2.0", default-features = false }
actix-web = { version = "4", default-features = false, features = ["macros"] }
actix-cors = "0.7"
anyhow = "1"
dotenv = "0.15"
env_logger = "0.11"
log = "0.4"
serde = { version = "1", features = ["derive"] }
serde_json = "1"
