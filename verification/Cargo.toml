[package]
name = "email_extractor"
version = "0.1.0"
edition = "2021"
publish = false

[dependencies]
env_logger = "*"
infer = "*"
log = "0.4"
pdf-extract = "*"
regex = "1"
zip = { version = "0.6", default-features = false, features = ["deflate"] }
