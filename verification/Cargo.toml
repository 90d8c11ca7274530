[package]
name = "crypto_ca"
version = "0.1.0"
edition = "2021"
publish = false

[dependencies]
openssl = "0.10"
jsonwebtoken = "9"
serde_json = { version = "1", features = ["preserve_order"] }
serde = { version = "1", features = ["derive"] }
rand = "0.8"
lettre = "0.11"
actix-web = "4"
actix-multipart = "0.7"
actix-files = "0.6"
tera = "1"
dotenv = "0.15"
env_logger = "0.11"
log = "0.4"
