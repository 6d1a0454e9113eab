[package]
name = "media_browser"
version = "0.1.0"
edition = "2021"
publish = false

[dependencies]
actix-files = "0.6"
actix-web = { version = "4", default-features = false, features = ["macros"] }
derive_more = "0.99"
dotenv = "0.15"
env_logger = "0.10"
home = "0.5"
log = "0.4"
serde = { version = "1", features = ["derive"] }
sha2 = "0.10"
