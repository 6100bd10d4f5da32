[package]
name = "zlnk"
version = "0.1.0"
edition = "2021"
publish = false

[dependencies]
dotenv = "*"
maxminddb = "*"
r2d2 = "*"
r2d2_redis = "*"
rand = "*"
redis = "*"
regex = "*"
rocket = "*"
serde_json = "*"
url = "*"
woothee = "*"
